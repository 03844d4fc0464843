//! Relation resolution over HAL documents.
//!
//! A HAL document carries its navigation in a reserved `_links` object:
//! relation name to link, or to a list of links that a caller tells apart
//! by each link's own `name` member. Nothing here touches the network;
//! these functions only read parsed documents, so every path a client
//! follows is resolved through a verified lookup.

use vstd::prelude::*;
use vstd::string::StrSliceExecFns;

use crate::errors::BrokerError;
use crate::json::{rep_get, JsonRep, JsonValue};
use crate::link::Link;
use crate::strutil::opt_view;

verus! {

/// The string content of member `key`, `None` when absent or not a string.
pub open spec fn rep_str_member(v: JsonRep, key: Seq<char>) -> Option<Seq<char>> {
    match rep_get(v, key) {
        Some(JsonRep::Str(s)) => Some(s),
        _ => None,
    }
}

/// The boolean content of member `key`, `None` when absent or not a boolean.
pub open spec fn rep_bool_member(v: JsonRep, key: Seq<char>) -> Option<bool> {
    match rep_get(v, key) {
        Some(JsonRep::Bool(b)) => Some(b),
        _ => None,
    }
}

/// How a link object is read: `href` and `title` are its string members
/// when present, `templated` only when literally `true`, and the link
/// keeps its own `name` member, falling back to the relation it was
/// found under.
pub open spec fn spec_link_name(rel: Seq<char>, v: JsonRep) -> Seq<char> {
    match rep_str_member(v, "name"@) {
        Some(n) => n,
        None => rel,
    }
}

/// Reads one link object found under relation `rel`.
pub fn link_from_json(rel: &str, v: &JsonValue) -> (l: Link)
    ensures
        l.name@ == spec_link_name(rel@, v@),
        opt_view(l.href) == rep_str_member(v@, "href"@),
        l.templated == (rep_bool_member(v@, "templated"@) == Some(true)),
        opt_view(l.title) == rep_str_member(v@, "title"@),
{
    let name: String = match v.get("name") {
        Some(m) => match m.as_str() {
            Some(s) => s.clone(),
            None => rel.to_owned(),
        },
        None => rel.to_owned(),
    };
    let href: Option<String> = match v.get("href") {
        Some(m) => match m.as_str() {
            Some(s) => Some(s.clone()),
            None => None,
        },
        None => None,
    };
    let templated: bool = match v.get("templated") {
        Some(m) => match m.as_bool() {
            Some(b) => b,
            None => false,
        },
        None => false,
    };
    let title: Option<String> = match v.get("title") {
        Some(m) => match m.as_str() {
            Some(s) => Some(s.clone()),
            None => None,
        },
        None => None,
    };
    Link { name, href, templated, title }
}

/// The `_links` member of a document.
pub open spec fn spec_links_of(doc: JsonRep) -> Option<JsonRep> {
    rep_get(doc, "_links"@)
}

/// The raw value found under relation `rel` of the document's `_links`.
pub open spec fn spec_relation_value(doc: JsonRep, rel: Seq<char>) -> Option<JsonRep> {
    match spec_links_of(doc) {
        Some(links) => rep_get(links, rel),
        None => None,
    }
}

/// The message used when a relation cannot be resolved.
pub open spec fn spec_relation_error(rel: Seq<char>) -> Seq<char> {
    "relation '"@ + rel + "' was not found in the response"@
}

fn relation_error(rel: &str) -> (m: String)
    ensures
        m@ == spec_relation_error(rel@),
{
    let mut m = String::new();
    m.append("relation '");
    m.append(rel);
    m.append("' was not found in the response");
    m
}

/// Resolves a single-valued relation from a document's `_links`.
/// A relation that is absent, or whose `_links` entry is not one object,
/// fails with a `LinkError` naming the relation; a list-valued relation
/// is resolved by [`get_named_link`] instead.
pub fn get_link(doc: &JsonValue, rel: &str) -> (r: Result<Link, BrokerError>)
    ensures
        match r {
            Ok(l) => {
                &&& spec_relation_value(doc@, rel@) matches Some(v) && v is Obj
                &&& spec_relation_value(doc@, rel@) matches Some(v) ==> {
                    &&& l.name@ == spec_link_name(rel@, v)
                    &&& opt_view(l.href) == rep_str_member(v, "href"@)
                    &&& l.templated == (rep_bool_member(v, "templated"@) == Some(true))
                    &&& opt_view(l.title) == rep_str_member(v, "title"@)
                }
            },
            Err(e) => {
                &&& !(spec_relation_value(doc@, rel@) matches Some(v) && v is Obj)
                &&& e matches BrokerError::LinkError(m) && m@ == spec_relation_error(rel@)
            },
        },
{
    match doc.get("_links") {
        Some(links) => match links.get(rel) {
            Some(v) => match v {
                JsonValue::Obj(_) => Ok(link_from_json(rel, v)),
                _ => Err(BrokerError::LinkError(relation_error(rel))),
            },
            None => Err(BrokerError::LinkError(relation_error(rel))),
        },
        None => Err(BrokerError::LinkError(relation_error(rel))),
    }
}

/// Which element of a list-valued relation carries `name`: the first
/// object element whose `name` member is that string.
pub open spec fn spec_named_index(items: Seq<JsonRep>, name: Seq<char>) -> Option<int>
    decreases items.len(),
{
    if items.len() == 0 {
        None
    } else if rep_str_member(items[0], "name"@) == Some(name) {
        Some(0)
    } else {
        match spec_named_index(items.drop_first(), name) {
            Some(i) => Some(i + 1),
            None => None,
        }
    }
}

/// Resolves a list-valued relation (several links under one relation,
/// told apart by their `name` members, as with one deployment link per
/// environment). Fails with a `LinkError` naming the relation when the
/// relation is missing, is not a list, or no element carries `name`.
pub fn get_named_link(doc: &JsonValue, rel: &str, name: &str) -> (r: Result<Link, BrokerError>)
    ensures
        match r {
            Ok(l) => spec_relation_value(doc@, rel@) matches Some(v) && (v matches JsonRep::Arr(
                items,
            ) && spec_named_index(items, name@) matches Some(i) && {
                &&& l.name@ == spec_link_name(rel@, items[i])
                &&& opt_view(l.href) == rep_str_member(items[i], "href"@)
                &&& l.templated == (rep_bool_member(items[i], "templated"@) == Some(true))
                &&& opt_view(l.title) == rep_str_member(items[i], "title"@)
            }),
            Err(e) => {
                &&& !(spec_relation_value(doc@, rel@) matches Some(v) && v matches JsonRep::Arr(
                    items,
                ) && spec_named_index(items, name@) is Some)
                &&& e matches BrokerError::LinkError(m) && m@ == spec_relation_error(rel@)
            },
        },
{
    match doc.get("_links") {
        Some(links) => match links.get(rel) {
            Some(v) => match v.as_array() {
                Some(items) => {
                    let ghost irep = crate::json::view_json_seq(items@);
                    let mut i: usize = 0;
                    proof {
                        crate::json::lemma_view_json_seq(items@);
                        assert(irep.skip(0) =~= irep);
                    }
                    while i < items.len()
                        invariant
                            irep == crate::json::view_json_seq(items@),
                            irep.len() == items@.len(),
                            forall|j: int|
                                0 <= j < irep.len() ==> irep[j] == crate::json::view_json(
                                    items@[j],
                                ),
                            i <= irep.len(),
                            spec_relation_value(doc@, rel@) == Some(JsonRep::Arr(irep)),
                            spec_named_index(irep, name@) == match spec_named_index(
                                irep.skip(i as int),
                                name@,
                            ) {
                                Some(k) => Some(k + i),
                                None => None::<int>,
                            },
                        decreases irep.len() - i,
                    {
                        proof {
                            assert(irep.skip(i as int)[0] == irep[i as int]);
                            assert(irep.skip(i as int).drop_first() =~= irep.skip(i as int + 1));
                        }
                        let is_match: bool = match items[i].get("name") {
                            Some(m) => match m.as_str() {
                                Some(s) => crate::strutil::str_eq(s.as_str(), name),
                                None => false,
                            },
                            None => false,
                        };
                        if is_match {
                            return Ok(link_from_json(rel, &items[i]));
                        }
                        i = i + 1;
                    }
                    Err(BrokerError::LinkError(relation_error(rel)))
                },
                None => Err(BrokerError::LinkError(relation_error(rel))),
            },
            None => Err(BrokerError::LinkError(relation_error(rel))),
        },
        None => Err(BrokerError::LinkError(relation_error(rel))),
    }
}

/// Whether `s` starts with `prefix`, stated over the views.
pub open spec fn spec_starts_with(s: Seq<char>, prefix: Seq<char>) -> bool {
    prefix.len() <= s.len() && s.take(prefix.len() as int) == prefix
}

/// The path of `href` relative to `base`: the remainder when `href`
/// starts with `base`, the whole `href` otherwise (an absolute link to
/// another host is left for the transport to reject).
pub fn href_path_after_base(href: &str, base: &str) -> (r: String)
    ensures
        spec_starts_with(href@, base@) ==> r@ == href@.skip(base@.len() as int),
        !spec_starts_with(href@, base@) ==> r@ == href@,
{
    let hlen = href.unicode_len();
    let blen = base.unicode_len();
    if blen > hlen {
        return href.to_owned();
    }
    let mut i: usize = 0;
    while i < blen
        invariant
            hlen == href@.len(),
            blen == base@.len(),
            blen <= hlen,
            i <= blen,
            forall|j: int| 0 <= j < i ==> href@[j] == base@[j],
        decreases blen - i,
    {
        if href.get_char(i) != base.get_char(i) {
            proof {
                assert(href@.take(blen as int)[i as int] != base@[i as int]);
            }
            return href.to_owned();
        }
        i = i + 1;
    }
    proof {
        assert(href@.take(blen as int) =~= base@);
    }
    let rest = href.substring_char(blen, hlen);
    proof {
        assert(href@.subrange(blen as int, hlen as int) =~= href@.skip(blen as int));
    }
    rest.to_owned()
}

/// The href of a single-valued relation of an index document, as a path
/// relative to the broker's base URL. A missing relation keeps the
/// `LinkError` of [`get_link`]; a link without an href fails the same way.
pub fn relation_href_path(index: &JsonValue, rel: &str, base: &str) -> (r: Result<
    String,
    BrokerError,
>)
    ensures
        match r {
            Ok(p) => spec_relation_value(index@, rel@) matches Some(v) && rep_str_member(
                v,
                "href"@,
            ) matches Some(h) && p@ == (if spec_starts_with(h, base@) {
                h.skip(base@.len() as int)
            } else {
                h
            }),
            Err(e) => {
                &&& !(spec_relation_value(index@, rel@) matches Some(v) && v is Obj
                    && rep_str_member(v, "href"@) is Some)
                &&& e matches BrokerError::LinkError(m) && m@ == spec_relation_error(rel@)
            },
        },
{
    match get_link(index, rel) {
        Ok(l) => match l.href {
            Some(h) => Ok(href_path_after_base(h.as_str(), base)),
            None => Err(BrokerError::LinkError(relation_error(rel))),
        },
        Err(e) => Err(e),
    }
}

} // verus!
