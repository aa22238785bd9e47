use vstd::prelude::*;

use crate::utils::{split_levels, split_topic, view_strings};

verus! {

/// The single-level wildcard as a level.
pub open spec fn plus_level() -> Seq<char> {
    seq!['+']
}

/// The multi-level wildcard as a level.
pub open spec fn hash_level() -> Seq<char> {
    seq!['#']
}

/// Whether filter levels match topic levels, level by level: `+` matches any
/// one level, a terminal `#` matches all remaining levels including none,
/// and a literal level matches only itself.
pub open spec fn levels_match(f: Seq<Seq<char>>, t: Seq<Seq<char>>) -> bool
    decreases f.len(),
{
    if f.len() == 0 {
        t.len() == 0
    } else if f[0] == hash_level() {
        f.len() == 1
    } else if t.len() == 0 {
        false
    } else if f[0] == plus_level() || f[0] == t[0] {
        levels_match(f.drop_first(), t.drop_first())
    } else {
        false
    }
}

/// Whether a topic's first level begins with `$`.
pub open spec fn starts_dollar(t: Seq<Seq<char>>) -> bool {
    t.len() > 0 && t[0].len() > 0 && t[0][0] == '$'
}

/// Whether a filter's first level is a wildcard.
pub open spec fn first_is_wild(f: Seq<Seq<char>>) -> bool {
    f.len() > 0 && (f[0] == plus_level() || f[0] == hash_level())
}

/// Whether a filter matches a topic: the levels match, and a filter that
/// opens with a wildcard never matches a topic whose first level begins
/// with `$`.
pub open spec fn filter_matches(f: Seq<Seq<char>>, t: Seq<Seq<char>>) -> bool {
    levels_match(f, t) && !(first_is_wild(f) && starts_dollar(t))
}

/// No filter whose first level is `+` or `#` matches any topic whose first
/// level starts with `$`.
pub proof fn lemma_dollar_wildcard(f: Seq<Seq<char>>, t: Seq<Seq<char>>)
    requires
        first_is_wild(f),
        starts_dollar(t),
    ensures
        !filter_matches(f, t),
{
}

/// Whether a string is a single given character.
fn is_single_char(s: &String, c: char) -> (r: bool)
    ensures
        r == (s@ == seq![c]),
{
    let st = s.as_str();
    if st.unicode_len() != 1 {
        proof {
            assert(s@ != seq![c]);
        }
        false
    } else {
        let r = st.get_char(0) == c;
        proof {
            if r {
                assert(s@ =~= seq![c]);
            } else {
                assert(s@ != seq![c]);
            }
        }
        r
    }
}

/// Whether a string begins with `$`.
fn starts_with_dollar(s: &String) -> (r: bool)
    ensures
        r == (s@.len() > 0 && s@[0] == '$'),
{
    let st = s.as_str();
    if st.unicode_len() == 0 {
        false
    } else {
        st.get_char(0) == '$'
    }
}

/// Whether the filter levels match the topic levels.
pub fn levels_match_exec(f: &Vec<String>, t: &Vec<String>) -> (r: bool)
    ensures
        r == levels_match(view_strings(f@), view_strings(t@)),
{
    let ghost fv = view_strings(f@);
    let ghost tv = view_strings(t@);
    let mut i: usize = 0;
    proof {
        assert(fv.subrange(0, fv.len() as int) =~= fv);
        assert(tv.subrange(0, tv.len() as int) =~= tv);
    }
    loop
        invariant
            0 <= i <= f@.len(),
            i <= t@.len(),
            fv == view_strings(f@),
            tv == view_strings(t@),
            levels_match(fv, tv) == levels_match(
                fv.subrange(i as int, fv.len() as int),
                tv.subrange(i as int, tv.len() as int),
            ),
        decreases f@.len() - i,
    {
        let ghost fs = fv.subrange(i as int, fv.len() as int);
        let ghost ts = tv.subrange(i as int, tv.len() as int);
        if i >= f.len() {
            proof {
                assert(fs.len() == 0);
                assert(levels_match(fs, ts) == (ts.len() == 0));
            }
            return i >= t.len();
        }
        proof {
            assert(fs[0] == fv[i as int]);
            assert(fv[i as int] == f@[i as int]@);
        }
        if is_single_char(&f[i], '#') {
            proof {
                assert(levels_match(fs, ts) == (fs.len() == 1));
            }
            return i + 1 == f.len();
        }
        if i >= t.len() {
            proof {
                assert(ts.len() == 0);
                assert(levels_match(fs, ts) == false);
            }
            return false;
        }
        proof {
            assert(ts[0] == tv[i as int]);
            assert(tv[i as int] == t@[i as int]@);
        }
        if is_single_char(&f[i], '+') || f[i].eq(&t[i]) {
            proof {
                assert(fs.drop_first() =~= fv.subrange(i + 1, fv.len() as int));
                assert(ts.drop_first() =~= tv.subrange(i + 1, tv.len() as int));
                assert(levels_match(fs, ts) == levels_match(fs.drop_first(), ts.drop_first()));
            }
            i = i + 1;
        } else {
            proof {
                assert(levels_match(fs, ts) == false);
            }
            return false;
        }
    }
}

/// Whether a filter, given as levels, matches a topic, given as levels,
/// under the wildcard and `$` rules.
pub fn filter_matches_levels(f: &Vec<String>, t: &Vec<String>) -> (r: bool)
    ensures
        r == filter_matches(view_strings(f@), view_strings(t@)),
{
    let wild = f.len() > 0 && (is_single_char(&f[0], '+') || is_single_char(&f[0], '#'));
    let dollar = t.len() > 0 && starts_with_dollar(&t[0]);
    proof {
        if f@.len() > 0 {
            assert(view_strings(f@)[0] == f@[0]@);
        }
        if t@.len() > 0 {
            assert(view_strings(t@)[0] == t@[0]@);
        }
        assert(wild == first_is_wild(view_strings(f@)));
        assert(dollar == starts_dollar(view_strings(t@)));
    }
    if wild && dollar {
        return false;
    }
    levels_match_exec(f, t)
}

/// A concrete topic held ready for matching against topic filters.
pub struct Pattern {
    pub levels: Vec<String>,
}

impl Pattern {
    /// The levels of the held topic.
    pub open spec fn spec_levels(self) -> Seq<Seq<char>> {
        view_strings(self.levels@)
    }

    /// Hold a topic, split into its levels, for matching.
    pub fn new(topic: &str) -> (r: Self)
        ensures
            r.spec_levels() == split_levels(topic@),
    {
        Pattern { levels: split_topic(topic) }
    }

    /// Whether a topic filter matches the held topic.
    pub fn matches(&self, topic: &str) -> (r: bool)
        ensures
            r == filter_matches(split_levels(topic@), self.spec_levels()),
    {
        let filter = split_topic(topic);
        let wild_first = is_single_char(&filter[0], '+') || is_single_char(&filter[0], '#');
        let dollar = self.levels.len() > 0 && starts_with_dollar(&self.levels[0]);
        proof {
            assert(view_strings(filter@)[0] == filter@[0]@);
            assert(view_strings(filter@).len() > 0);
            assert(wild_first == first_is_wild(view_strings(filter@)));
            if self.levels@.len() > 0 {
                assert(self.spec_levels()[0] == self.levels@[0]@);
            }
            assert(dollar == starts_dollar(self.spec_levels()));
        }
        if wild_first && dollar {
            return false;
        }
        levels_match_exec(&filter, &self.levels)
    }
}

} // verus!
