use vstd::prelude::*;

verus! {

/// The levels of a topic or filter: the text split on every `/`. Splitting
/// never yields an empty list; an empty string is one empty level.
pub open spec fn split_levels(s: Seq<char>) -> Seq<Seq<char>>
    decreases s.len(),
{
    if s.len() == 0 {
        seq![Seq::<char>::empty()]
    } else if s[0] == '/' {
        seq![Seq::<char>::empty()] + split_levels(s.drop_first())
    } else {
        let rest = split_levels(s.drop_first());
        seq![seq![s[0]] + rest[0]] + rest.drop_first()
    }
}

/// Splitting always yields at least one level.
pub proof fn lemma_split_levels_nonempty(s: Seq<char>)
    ensures
        split_levels(s).len() >= 1,
    decreases s.len(),
{
    if s.len() > 0 {
        lemma_split_levels_nonempty(s.drop_first());
    }
}

/// Splitting a string whose first separator stands at `i` yields the prefix
/// as the first level and the split of what follows the separator; a string
/// without separators is a single level.
pub proof fn lemma_split_at_sep(s: Seq<char>, i: int)
    requires
        0 <= i <= s.len(),
        forall|k: int| 0 <= k < i ==> s[k] != '/',
        i < s.len() ==> s[i] == '/',
    ensures
        i == s.len() ==> split_levels(s) == seq![s],
        i < s.len() ==> split_levels(s) == seq![s.subrange(0, i)] + split_levels(
            s.subrange(i + 1, s.len() as int),
        ),
    decreases s.len(),
{
    lemma_split_levels_nonempty(s);
    if s.len() == 0 {
        assert(split_levels(s) =~~= seq![s]);
    } else if i == 0 {
        if i < s.len() {
            assert(s.drop_first() =~= s.subrange(1, s.len() as int));
            assert(split_levels(s) =~~= seq![s.subrange(0, 0)] + split_levels(
                s.subrange(1, s.len() as int),
            ));
        }
    } else {
        let d = s.drop_first();
        assert(forall|k: int| 0 <= k < i - 1 ==> d[k] != '/');
        lemma_split_at_sep(d, i - 1);
        lemma_split_levels_nonempty(d);
        if i == s.len() {
            assert(split_levels(d) == seq![d]);
            assert(seq![s[0]] + d =~= s);
            assert(split_levels(s) =~~= seq![s]);
        } else {
            assert(split_levels(d) == seq![d.subrange(0, i - 1)] + split_levels(
                d.subrange(i, d.len() as int),
            ));
            assert(seq![s[0]] + d.subrange(0, i - 1) =~= s.subrange(0, i));
            assert(d.subrange(i, d.len() as int) =~= s.subrange(i + 1, s.len() as int));
            assert(split_levels(s) =~~= seq![s.subrange(0, i)] + split_levels(
                s.subrange(i + 1, s.len() as int),
            ));
        }
    }
}

/// The character sequences of a list of strings.
pub open spec fn view_strings(t: Seq<String>) -> Seq<Seq<char>> {
    Seq::new(t.len(), |i: int| t[i]@)
}

/// Split a topic or filter on `/` into its levels.
pub fn split_topic(s: &str) -> (r: Vec<String>)
    ensures
        view_strings(r@) == split_levels(s@),
        r@.len() >= 1,
{
    let n = s.unicode_len();
    let mut result: Vec<String> = Vec::new();
    let mut start: usize = 0;
    let mut i: usize = 0;
    proof {
        assert(view_strings(result@) =~= Seq::<Seq<char>>::empty());
        assert(s@.subrange(0, n as int) =~= s@);
    }
    while i < n
        invariant
            0 <= start <= i <= n,
            n == s@.len(),
            forall|k: int| start <= k < i ==> s@[k] != '/',
            view_strings(result@) + split_levels(s@.subrange(start as int, n as int))
                =~= split_levels(s@),
        decreases n - i,
    {
        if s.get_char(i) == '/' {
            let level = String::from_str(s.substring_char(start, i));
            let ghost acc0 = view_strings(result@);
            result.push(level);
            proof {
                let u = s@.subrange(start as int, n as int);
                assert(forall|k: int| 0 <= k < i - start ==> u[k] != '/');
                assert(u[i - start] == '/');
                lemma_split_at_sep(u, i - start);
                assert(u.subrange(0, i - start) =~= s@.subrange(start as int, i as int));
                assert(u.subrange(i - start + 1, u.len() as int) =~= s@.subrange(
                    i + 1,
                    n as int,
                ));
                assert(view_strings(result@) =~= acc0 + seq![level@]);
                assert(view_strings(result@) + split_levels(s@.subrange(i + 1, n as int))
                    =~= split_levels(s@));
            }
            start = i + 1;
        }
        i = i + 1;
    }
    let last = String::from_str(s.substring_char(start, n));
    let ghost acc0 = view_strings(result@);
    result.push(last);
    proof {
        let u = s@.subrange(start as int, n as int);
        assert(forall|k: int| 0 <= k < u.len() ==> u[k] != '/');
        lemma_split_at_sep(u, u.len() as int);
        assert(view_strings(result@) =~= acc0 + seq![last@]);
        assert(last@ == u);
        assert(acc0 + seq![u] =~= split_levels(s@));
    }
    result
}

/// The characters of the literal `$share`, the prefix that names a shared
/// subscription.
pub open spec fn share_chars() -> Seq<char> {
    seq!['$', 's', 'h', 'a', 'r', 'e']
}

/// Whether a string is exactly `$share`.
pub fn is_share_literal(s: &String) -> (r: bool)
    ensures
        r == (s@ == share_chars()),
{
    let st = s.as_str();
    if st.unicode_len() != 6 {
        proof {
            assert(s@ != share_chars());
        }
        false
    } else {
        let r = st.get_char(0) == '$' && st.get_char(1) == 's' && st.get_char(2) == 'h'
            && st.get_char(3) == 'a' && st.get_char(4) == 'r' && st.get_char(5) == 'e';
        proof {
            if r {
                assert(s@ =~= share_chars());
            } else {
                assert(s@ != share_chars());
            }
        }
        r
    }
}

/// What tokenising a topic or filter yields: its levels, with a `$share`
/// prefix stripped into the share name and the share level blanked.
pub open spec fn spec_tokenise(s: Seq<char>) -> Result<
    (Seq<Seq<char>>, Option<Seq<char>>),
    u8,
> {
    let parts = split_levels(s);
    if parts[0] == share_chars() {
        if parts.len() < 2 {
            Err(1u8)
        } else {
            Ok(
                (
                    seq![Seq::<char>::empty()] + parts.subrange(2, parts.len() as int),
                    Some(parts[1]),
                ),
            )
        }
    } else {
        Ok((parts, None))
    }
}

/// Parse a topic string into its levels and parse out a `$share` prefix: the
/// share level is consumed, its place held by an empty level.
pub fn tokenise_topic(value: String) -> (r: Result<(Vec<String>, Option<String>), u8>)
    ensures
        r matches Ok((parts, share)) ==> spec_tokenise(value@) == Ok::<
            (Seq<Seq<char>>, Option<Seq<char>>),
            u8,
        >(
            (
                view_strings(parts@),
                match share {
                    Some(s) => Some(s@),
                    None => None,
                },
            ),
        ),
        r matches Err(e) ==> spec_tokenise(value@) == Err::<
            (Seq<Seq<char>>, Option<Seq<char>>),
            u8,
        >(e),
{
    let mut parts = split_topic(value.as_str());
    if is_share_literal(&parts[0]) {
        if parts.len() < 2 {
            return Err(1);
        }
        let ghost before = parts@;
        let removed = parts.remove(0);
        let share = parts.remove(0);
        parts.insert(0, String::new());
        proof {
            let sp = split_levels(value@);
            assert(view_strings(before) == sp);
            assert(share@ == sp[1]);
            assert(view_strings(parts@) =~= seq![Seq::<char>::empty()] + sp.subrange(
                2,
                sp.len() as int,
            ));
        }
        Ok((parts, Some(share)))
    } else {
        Ok((parts, None))
    }
}


/// What splitting a filter for the subscription store yields: its levels,
/// with a `$share` prefix and the share level that follows it stripped into
/// the share name, the remainder standing as the effective filter.
pub open spec fn spec_share_split(s: Seq<char>) -> Result<
    (Seq<Seq<char>>, Option<Seq<char>>),
    u8,
> {
    let parts = split_levels(s);
    if parts[0] == share_chars() {
        if parts.len() < 2 {
            Err(1u8)
        } else {
            Ok((parts.subrange(2, parts.len() as int), Some(parts[1])))
        }
    } else {
        Ok((parts, None))
    }
}

/// Split a filter for the subscription store: a `$share/<group>/` prefix is
/// stripped into the group name, and what follows it is the effective
/// filter.
pub fn share_split(value: String) -> (r: Result<(Vec<String>, Option<String>), u8>)
    ensures
        r matches Ok((parts, share)) ==> spec_share_split(value@) == Ok::<
            (Seq<Seq<char>>, Option<Seq<char>>),
            u8,
        >(
            (
                view_strings(parts@),
                match share {
                    Some(s) => Some(s@),
                    None => None,
                },
            ),
        ),
        r matches Err(e) ==> spec_share_split(value@) == Err::<
            (Seq<Seq<char>>, Option<Seq<char>>),
            u8,
        >(e),
{
    let mut parts = split_topic(value.as_str());
    if is_share_literal(&parts[0]) {
        if parts.len() < 2 {
            return Err(1);
        }
        let ghost before = parts@;
        let removed = parts.remove(0);
        let share = parts.remove(0);
        proof {
            let sp = split_levels(value@);
            assert(view_strings(before) == sp);
            assert(share@ == sp[1]);
            assert(view_strings(parts@) =~= sp.subrange(2, sp.len() as int));
        }
        Ok((parts, Some(share)))
    } else {
        Ok((parts, None))
    }
}

} // verus!
