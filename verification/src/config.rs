//! Invocation configuration: authentication, the broker's base URL,
//! and the environment-driven settings.

use vstd::prelude::*;
use vstd::string::StrSliceExecFns;

use crate::evaluate::IgnoreEntry;
use crate::link::{lemma_find_char_hit, lemma_find_char_miss, spec_find_char};
use crate::strutil::{opt_view, str_eq};

verus! {

/// How requests authenticate: a bearer token, basic credentials with
/// an optional password, or nothing. Resolved once per invocation and
/// immutable afterwards.
#[derive(Clone, Debug)]
pub enum HttpAuth {
    NoAuth,
    User(String, Option<String>),
    Token(String),
}

/// Resolves the credential flags with the fixed precedence: a token
/// beats a username, a username (with its optional password) beats
/// nothing.
pub fn resolve_auth(token: Option<String>, username: Option<String>, password: Option<String>) -> (
    a: HttpAuth)
    ensures
        match a {
            HttpAuth::Token(t) => token == Some(t),
            HttpAuth::User(u, p) => token is None && username == Some(u) && p == password,
            HttpAuth::NoAuth => token is None && username is None,
        },
{
    match token {
        Some(t) => HttpAuth::Token(t),
        None => match username {
            Some(u) => HttpAuth::User(u, password),
            None => HttpAuth::NoAuth,
        },
    }
}

/// Whether a dry-run environment variable requests a dry run: only the
/// literal value `true` does.
pub fn env_requests_dry_run(value: &Option<String>) -> (r: bool)
    ensures
        r == (opt_view(*value) == Some("true"@)),
{
    match value {
        Some(v) => str_eq(v.as_str(), "true"),
        None => false,
    }
}

/// The base URL in force: an explicit argument beats the environment.
pub fn choose_broker_url(arg: Option<String>, env: Option<String>) -> (r: Option<String>)
    ensures
        arg is Some ==> r == arg,
        arg is None ==> r == env,
{
    match arg {
        Some(u) => Some(u),
        None => env,
    }
}

/// The non-empty comma-separated pieces of a list, in order.
pub open spec fn spec_names(s: Seq<char>) -> Seq<Seq<char>>
    decreases s.len(),
{
    let k = spec_find_char(s, ',', 0);
    if 0 <= k < s.len() {
        (if k > 0 {
            seq![s.take(k)]
        } else {
            Seq::empty()
        }) + spec_names(s.skip(k + 1))
    } else {
        if s.len() > 0 {
            seq![s]
        } else {
            Seq::empty()
        }
    }
}

/// Reads an ignore list from its environment value: one entry per
/// non-empty comma-separated pacticipant name, in order, each without
/// a version pin.
pub fn ignore_entries_from(value: &str) -> (entries: Vec<IgnoreEntry>)
    ensures
        entries@.map_values(|e: IgnoreEntry| e.pacticipant@) == spec_names(value@),
        forall|i: int| 0 <= i < entries@.len() ==> (#[trigger] entries@[i]).version is None,
{
    let len = value.unicode_len();
    let mut entries: Vec<IgnoreEntry> = Vec::new();
    let mut pos: usize = 0;
    proof {
        assert(value@.skip(0) =~= value@);
        assert(entries@.map_values(|e: IgnoreEntry| e.pacticipant@) =~= Seq::<Seq<char>>::empty());
    }
    while pos < len
        invariant
            len == value@.len(),
            pos <= len,
            spec_names(value@) == entries@.map_values(|e: IgnoreEntry| e.pacticipant@)
                + spec_names(value@.skip(pos as int)),
            forall|i: int| 0 <= i < entries@.len() ==> (#[trigger] entries@[i]).version is None,
        decreases len - pos,
    {
        let ghost t = value@.skip(pos as int);
        let mut j: usize = pos;
        while j < len && value.get_char(j) != ','
            invariant
                len == value@.len(),
                pos <= j <= len,
                forall|k: int| pos <= k < j ==> value@[k] != ',',
            decreases len - j,
        {
            j = j + 1;
        }
        proof {
            assert forall|m: int| 0 <= m < j - pos implies t[m] != ',' by {
                assert(t[m] == value@[pos + m]);
            }
        }
        if j < len {
            proof {
                assert(t[j - pos] == value@[j as int]);
                lemma_find_char_hit(t, ',', 0, j - pos);
                assert(t.take(j - pos) =~= value@.subrange(pos as int, j as int));
                assert(t.skip(j - pos + 1) =~= value@.skip(j as int + 1));
            }
            if j > pos {
                let name = value.substring_char(pos, j);
                entries.push(IgnoreEntry { pacticipant: name.to_owned(), version: None });
                proof {
                    assert(entries@.map_values(|e: IgnoreEntry| e.pacticipant@)
                        =~= entries@.drop_last().map_values(|e: IgnoreEntry| e.pacticipant@).push(
                        entries@.last().pacticipant@,
                    ));
                }
            }
            pos = j + 1;
        } else {
            proof {
                lemma_find_char_miss(t, ',', 0);
                assert(t =~= value@.subrange(pos as int, len as int));
            }
            let name = value.substring_char(pos, len);
            entries.push(IgnoreEntry { pacticipant: name.to_owned(), version: None });
            proof {
                assert(entries@.map_values(|e: IgnoreEntry| e.pacticipant@)
                    =~= entries@.drop_last().map_values(|e: IgnoreEntry| e.pacticipant@).push(
                    entries@.last().pacticipant@,
                ));
                assert(value@.skip(len as int) =~= Seq::<char>::empty());
                assert(spec_names(value@.skip(len as int)) =~= Seq::<Seq<char>>::empty());
            }
            pos = len;
        }
    }
    proof {
        assert(value@.skip(len as int) =~= Seq::<char>::empty());
        assert(spec_names(value@.skip(len as int)) =~= Seq::<Seq<char>>::empty());
        assert(entries@.map_values(|e: IgnoreEntry| e.pacticipant@) + Seq::<Seq<char>>::empty()
            =~= entries@.map_values(|e: IgnoreEntry| e.pacticipant@));
    }
    entries
}

} // verus!
