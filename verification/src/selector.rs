//! Application-version selectors and the target filter.
//!
//! A matrix query names one or more selectors: a pacticipant plus the
//! strategy that picks its versions (a pinned version, the latest
//! version, a branch, or the main branch). Selectors come from repeated
//! `--pacticipant` / `--version` argument pairs: each pacticipant opens
//! a new selector and every following strategy flag attaches to the most
//! recently opened one, so the pairing is positional, not free-form.

use vstd::prelude::*;

use crate::errors::UsageError;

verus! {

/// Whether the main-branch strategy is requested, declined, or simply
/// not mentioned.
#[derive(Clone, Copy, Debug, PartialEq, Eq, Structural)]
pub enum MainBranchMode {
    Use,
    Skip,
    Omit,
}

/// One application-version selector.
#[derive(Clone, Debug)]
pub struct Selector {
    pub pacticipant: String,
    pub version: Option<String>,
    pub latest: bool,
    pub branch: Option<String>,
    pub main_branch: MainBranchMode,
    pub tag: Option<String>,
}

/// The spec mirror of a [`Selector`].
pub struct SelectorRep {
    pub pacticipant: Seq<char>,
    pub version: Option<Seq<char>>,
    pub latest: bool,
    pub branch: Option<Seq<char>>,
    pub main_branch: MainBranchMode,
    pub tag: Option<Seq<char>>,
}

impl View for Selector {
    type V = SelectorRep;

    open spec fn view(&self) -> SelectorRep {
        SelectorRep {
            pacticipant: self.pacticipant@,
            version: crate::strutil::opt_view(self.version),
            latest: self.latest,
            branch: crate::strutil::opt_view(self.branch),
            main_branch: self.main_branch,
            tag: crate::strutil::opt_view(self.tag),
        }
    }
}

/// The result filter of a deploy check: an environment or a tag, never
/// both. Its absence is a merge-style check with no target filter.
#[derive(Clone, Debug)]
pub enum Target {
    Environment(String),
    Tag(String),
}

/// The spec mirror of a [`Target`].
pub enum TargetRep {
    Environment(Seq<char>),
    Tag(Seq<char>),
}

impl View for Target {
    type V = TargetRep;

    open spec fn view(&self) -> TargetRep {
        match self {
            Target::Environment(e) => TargetRep::Environment(e@),
            Target::Tag(t) => TargetRep::Tag(t@),
        }
    }
}

/// The view of an optional target.
pub open spec fn opt_target_view(t: Option<Target>) -> Option<TargetRep> {
    match t {
        Some(x) => Some(x@),
        None => None,
    }
}

/// One selector-building token, in command-line order.
#[derive(Clone, Debug)]
pub enum SelectorToken {
    Pacticipant(String),
    Version(String),
    Latest,
    Branch(String),
    MainBranch,
    SkipMainBranch,
    Tag(String),
}

/// The spec mirror of a [`SelectorToken`].
pub enum SelectorTokenRep {
    Pacticipant(Seq<char>),
    Version(Seq<char>),
    Latest,
    Branch(Seq<char>),
    MainBranch,
    SkipMainBranch,
    Tag(Seq<char>),
}

impl View for SelectorToken {
    type V = SelectorTokenRep;

    open spec fn view(&self) -> SelectorTokenRep {
        match self {
            SelectorToken::Pacticipant(p) => SelectorTokenRep::Pacticipant(p@),
            SelectorToken::Version(v) => SelectorTokenRep::Version(v@),
            SelectorToken::Latest => SelectorTokenRep::Latest,
            SelectorToken::Branch(b) => SelectorTokenRep::Branch(b@),
            SelectorToken::MainBranch => SelectorTokenRep::MainBranch,
            SelectorToken::SkipMainBranch => SelectorTokenRep::SkipMainBranch,
            SelectorToken::Tag(t) => SelectorTokenRep::Tag(t@),
        }
    }
}

/// A fresh selector for a newly named pacticipant.
pub open spec fn spec_new_selector(p: Seq<char>) -> SelectorRep {
    SelectorRep {
        pacticipant: p,
        version: None,
        latest: false,
        branch: None,
        main_branch: MainBranchMode::Omit,
        tag: None,
    }
}

/// How one token rewrites the selector it attaches to.
pub open spec fn spec_apply_token(s: SelectorRep, t: SelectorTokenRep) -> SelectorRep {
    match t {
        SelectorTokenRep::Pacticipant(_) => s,
        SelectorTokenRep::Version(v) => SelectorRep { version: Some(v), ..s },
        SelectorTokenRep::Latest => SelectorRep { latest: true, ..s },
        SelectorTokenRep::Branch(b) => SelectorRep { branch: Some(b), ..s },
        SelectorTokenRep::MainBranch => SelectorRep { main_branch: MainBranchMode::Use, ..s },
        SelectorTokenRep::SkipMainBranch => SelectorRep { main_branch: MainBranchMode::Skip, ..s },
        SelectorTokenRep::Tag(g) => SelectorRep { tag: Some(g), ..s },
    }
}

/// The positional fold of a token stream into selectors: a pacticipant
/// opens a new selector, every other token rewrites the most recent
/// one, and a strategy token before any pacticipant is a usage error
/// (`None`).
pub open spec fn spec_fold_tokens(tokens: Seq<SelectorTokenRep>) -> Option<Seq<SelectorRep>>
    decreases tokens.len(),
{
    if tokens.len() == 0 {
        Some(Seq::empty())
    } else {
        match spec_fold_tokens(tokens.drop_last()) {
            None => None,
            Some(acc) => match tokens.last() {
                SelectorTokenRep::Pacticipant(p) => Some(acc.push(spec_new_selector(p))),
                t => if acc.len() == 0 {
                    None
                } else {
                    Some(acc.update(acc.len() - 1, spec_apply_token(acc.last(), t)))
                },
            },
        }
    }
}

/// Once the fold has failed on a prefix, no longer prefix recovers.
proof fn lemma_fold_none_sticks(tokens: Seq<SelectorTokenRep>, i: int, j: int)
    requires
        0 <= i <= j <= tokens.len(),
        spec_fold_tokens(tokens.take(i)) is None,
    ensures
        spec_fold_tokens(tokens.take(j)) is None,
    decreases j - i,
{
    if i < j {
        lemma_fold_none_sticks(tokens, i, j - 1);
        assert(tokens.take(j).drop_last() =~= tokens.take(j - 1));
    }
}

fn new_selector(p: String) -> (s: Selector)
    ensures
        s@ == spec_new_selector(p@),
{
    Selector {
        pacticipant: p,
        version: None,
        latest: false,
        branch: None,
        main_branch: MainBranchMode::Omit,
        tag: None,
    }
}

/// Folds the token stream of one invocation into its selectors.
/// Fails exactly when a strategy token arrives before any pacticipant.
pub fn fold_tokens(tokens: Vec<SelectorToken>) -> (r: Result<Vec<Selector>, UsageError>)
    ensures
        match r {
            Ok(sels) => spec_fold_tokens(tokens@.map_values(|t: SelectorToken| t@)) == Some(
                sels@.map_values(|s: Selector| s@),
            ),
            Err(e) => spec_fold_tokens(tokens@.map_values(|t: SelectorToken| t@)) is None && e
                == UsageError::SelectorWithoutPacticipant,
        },
{
    let ghost tv = tokens@.map_values(|t: SelectorToken| t@);
    let mut sels: Vec<Selector> = Vec::new();
    let mut i: usize = 0;
    proof {
        assert(tv.take(0) =~= Seq::<SelectorTokenRep>::empty());
    }
    while i < tokens.len()
        invariant
            tv == tokens@.map_values(|t: SelectorToken| t@),
            tv.len() == tokens@.len(),
            i <= tv.len(),
            spec_fold_tokens(tv.take(i as int)) == Some(sels@.map_values(|s: Selector| s@)),
        decreases tv.len() - i,
    {
        proof {
            assert(tv.take(i as int + 1).drop_last() =~= tv.take(i as int));
            assert(tv.take(i as int + 1).last() == tv[i as int]);
        }
        let tok = &tokens[i];
        match tok {
            SelectorToken::Pacticipant(p) => {
                sels.push(new_selector(p.clone()));
                proof {
                    assert(sels@.map_values(|s: Selector| s@) =~= sels@.drop_last().map_values(
                        |s: Selector| s@,
                    ).push(sels@.last()@));
                }
            },
            _ => {
                if sels.len() == 0 {
                    proof {
                        assert(spec_fold_tokens(tv.take(i as int + 1)) is None);
                        lemma_fold_none_sticks(tv, i as int + 1, tv.len() as int);
                        assert(tv.take(tv.len() as int) =~= tv);
                    }
                    return Err(UsageError::SelectorWithoutPacticipant);
                }
                let k = sels.len() - 1;
                let cur = sels.remove(k);
                let updated = apply_token(cur, tok);
                sels.push(updated);
                proof {
                    assert(sels@.map_values(|s: Selector| s@) =~= sels@.drop_last().map_values(
                        |s: Selector| s@,
                    ).push(sels@.last()@));
                }
            },
        }
        i = i + 1;
    }
    proof {
        assert(tv.take(tv.len() as int) =~= tv);
    }
    Ok(sels)
}

fn apply_token(s: Selector, t: &SelectorToken) -> (r: Selector)
    ensures
        r@ == spec_apply_token(s@, t@),
{
    match t {
        SelectorToken::Pacticipant(_) => s,
        SelectorToken::Version(v) => Selector { version: Some(v.clone()), ..s },
        SelectorToken::Latest => Selector { latest: true, ..s },
        SelectorToken::Branch(b) => Selector { branch: Some(b.clone()), ..s },
        SelectorToken::MainBranch => Selector { main_branch: MainBranchMode::Use, ..s },
        SelectorToken::SkipMainBranch => Selector { main_branch: MainBranchMode::Skip, ..s },
        SelectorToken::Tag(g) => Selector { tag: Some(g.clone()), ..s },
    }
}

/// Resolves the mutually exclusive target flags: an environment, a tag,
/// neither — but never both.
pub fn resolve_target(to_environment: Option<String>, to_tag: Option<String>) -> (r: Result<
    Option<Target>,
    UsageError,
>)
    ensures
        match r {
            Ok(t) => match (to_environment, to_tag) {
                (Some(e), None) => t matches Some(Target::Environment(x)) && x@ == e@,
                (None, Some(g)) => t matches Some(Target::Tag(x)) && x@ == g@,
                (None, None) => t is None,
                (Some(_), Some(_)) => false,
            },
            Err(e) => to_environment is Some && to_tag is Some && e
                == UsageError::ConflictingTargets,
        },
{
    match (to_environment, to_tag) {
        (Some(_), Some(_)) => Err(UsageError::ConflictingTargets),
        (Some(e), None) => Ok(Some(Target::Environment(e))),
        (None, Some(g)) => Ok(Some(Target::Tag(g))),
        (None, None) => Ok(None),
    }
}

} // verus!
