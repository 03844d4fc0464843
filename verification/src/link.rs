//! Hypermedia links and template expansion.
//!
//! A link is the unit of navigation: a relation name, an href that is
//! either a concrete URL or a template with `{name}` placeholders, the
//! templated flag, and an optional title. Expansion substitutes supplied
//! variables into placeholders; a placeholder whose variable is missing
//! is kept verbatim, never silently dropped, so the failure surfaces at
//! request time instead of as a mangled URL.

use vstd::prelude::*;
use vstd::string::StrSliceExecFns;

use crate::strutil::str_eq;

verus! {

/// A typed hypermedia link, immutable once parsed from a document.
#[derive(Clone, Debug)]
pub struct Link {
    pub name: String,
    pub href: Option<String>,
    pub templated: bool,
    pub title: Option<String>,
}

/// The first index at or after `from` where `c` occurs in `t`, or
/// `t.len()` when it does not occur there.
pub open spec fn spec_find_char(t: Seq<char>, c: char, from: nat) -> int
    decreases t.len() - from,
{
    if from >= t.len() {
        t.len() as int
    } else if t[from as int] == c {
        from as int
    } else {
        spec_find_char(t, c, (from + 1) as nat)
    }
}

pub proof fn lemma_find_char_hit(t: Seq<char>, c: char, from: nat, idx: int)
    requires
        from <= idx < t.len(),
        t[idx] == c,
        forall|m: int| from <= m < idx ==> t[m] != c,
    ensures
        spec_find_char(t, c, from) == idx,
    decreases idx - from,
{
    if from < idx {
        lemma_find_char_hit(t, c, (from + 1) as nat, idx);
    }
}

pub proof fn lemma_find_char_miss(t: Seq<char>, c: char, from: nat)
    requires
        forall|m: int| from <= m < t.len() ==> t[m] != c,
    ensures
        spec_find_char(t, c, from) == t.len(),
    decreases t.len() - from,
{
    if from < t.len() {
        lemma_find_char_miss(t, c, (from + 1) as nat);
    }
}

/// The value bound to `name` by the first matching pair, if any.
pub open spec fn spec_lookup(vars: Seq<(Seq<char>, Seq<char>)>, name: Seq<char>) -> Option<
    Seq<char>,
>
    decreases vars.len(),
{
    if vars.len() == 0 {
        None
    } else if vars[0].0 == name {
        Some(vars[0].1)
    } else {
        spec_lookup(vars.drop_first(), name)
    }
}

/// The views of a variable list held as owned string pairs.
pub open spec fn spec_vars_view(vars: Seq<(String, String)>) -> Seq<(Seq<char>, Seq<char>)> {
    vars.map_values(|p: (String, String)| (p.0@, p.1@))
}

/// Template expansion. A `{name}` placeholder becomes the bound value,
/// or stays verbatim when `name` is unbound; a lone `{` without a
/// closing brace keeps the rest of the template verbatim; every other
/// character is copied through.
pub open spec fn spec_expand(t: Seq<char>, vars: Seq<(Seq<char>, Seq<char>)>) -> Seq<char>
    decreases t.len(),
{
    if t.len() == 0 {
        t
    } else if t[0] == '{' {
        let close = spec_find_char(t, '}', 1);
        if 1 <= close < t.len() {
            (match spec_lookup(vars, t.subrange(1, close)) {
                Some(val) => val,
                None => t.subrange(0, close + 1),
            }) + spec_expand(t.skip(close + 1), vars)
        } else {
            t
        }
    } else {
        seq![t[0]] + spec_expand(t.drop_first(), vars)
    }
}

/// First value bound to `name`, scanning the pairs in order.
pub fn lookup_var<'a>(vars: &'a Vec<(String, String)>, name: &str) -> (r: Option<&'a String>)
    ensures
        match r {
            Some(v) => spec_lookup(spec_vars_view(vars@), name@) == Some(v@),
            None => spec_lookup(spec_vars_view(vars@), name@) is None,
        },
{
    let ghost vv = spec_vars_view(vars@);
    let mut i: usize = 0;
    proof {
        assert(vv.skip(0) =~= vv);
    }
    while i < vars.len()
        invariant
            vv == spec_vars_view(vars@),
            vv.len() == vars@.len(),
            i <= vars@.len(),
            spec_lookup(vv, name@) == spec_lookup(vv.skip(i as int), name@),
        decreases vars@.len() - i,
    {
        proof {
            assert(vv.skip(i as int)[0] == vv[i as int]);
            assert(vv.skip(i as int).drop_first() =~= vv.skip(i as int + 1));
        }
        if str_eq(vars[i].0.as_str(), name) {
            return Some(&vars[i].1);
        }
        i = i + 1;
    }
    None
}

/// Expands `{name}` placeholders in `template` from `vars`, leaving
/// unresolved placeholders verbatim.
pub fn resolve_template(template: &str, vars: &Vec<(String, String)>) -> (r: String)
    ensures
        r@ == spec_expand(template@, spec_vars_view(vars@)),
{
    let ghost vv = spec_vars_view(vars@);
    let len = template.unicode_len();
    let mut out = String::new();
    let mut i: usize = 0;
    proof {
        assert(template@.skip(0) =~= template@);
    }
    while i < len
        invariant
            vv == spec_vars_view(vars@),
            len == template@.len(),
            i <= len,
            spec_expand(template@, vv) == out@ + spec_expand(template@.skip(i as int), vv),
        decreases len - i,
    {
        let ghost t = template@.skip(i as int);
        proof {
            assert(t[0] == template@[i as int]);
        }
        let c = template.get_char(i);
        if c == '{' {
            // scan for the closing brace
            let mut j: usize = i + 1;
            while j < len && template.get_char(j) != '}'
                invariant
                    len == template@.len(),
                    i + 1 <= j <= len,
                    forall|k: int| i + 1 <= k < j ==> template@[k] != '}',
                decreases len - j,
            {
                j = j + 1;
            }
            proof {
                assert(j == len || template@[j as int] == '}');
            }
            proof {
                assert forall|m: int| 1 <= m < j - i implies t[m] != '}' by {
                    assert(t[m] == template@[i + m]);
                }
            }
            if j < len {
                // closing brace found at j
                proof {
                    assert(t[j - i] == template@[j as int]);
                    lemma_find_char_hit(t, '}', 1, j - i);
                    assert(t.subrange(1, j - i) =~= template@.subrange(i + 1, j as int));
                    assert(t.subrange(0, j - i + 1) =~= template@.subrange(i as int, j + 1));
                    assert(t.skip(j - i + 1) =~= template@.skip(j + 1));
                }
                let name = template.substring_char(i + 1, j);
                match lookup_var(vars, name) {
                    Some(val) => {
                        out.append(val.as_str());
                    },
                    None => {
                        let verbatim = template.substring_char(i, j + 1);
                        out.append(verbatim);
                    },
                }
                i = j + 1;
            } else {
                // no closing brace: the rest stays verbatim
                proof {
                    lemma_find_char_miss(t, '}', 1);
                    assert(t =~= template@.subrange(i as int, len as int));
                    assert(template@.skip(len as int) =~= Seq::<char>::empty());
                    assert(out@ + t + spec_expand(template@.skip(len as int), vv) =~= out@ + t);
                }
                let rest = template.substring_char(i, len);
                out.append(rest);
                i = len;
            }
        } else {
            proof {
                assert(seq![t[0]] =~= template@.subrange(i as int, i + 1));
                assert(t.drop_first() =~= template@.skip(i as int + 1));
            }
            let one = template.substring_char(i, i + 1);
            out.append(one);
            i = i + 1;
        }
    }
    proof {
        assert(spec_expand(template@.skip(len as int), vv) =~= Seq::<char>::empty());
        assert(out@ + Seq::<char>::empty() =~= out@);
    }
    out
}

} // verus!
