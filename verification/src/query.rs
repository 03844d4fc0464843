//! The matrix query grammar: building and reading the query string.
//!
//! The builder serializes selectors into the broker's query grammar,
//! deterministically and in declaration order: for each selector one
//! `q[][pacticipant]=` pair plus its strategy pair, then the target
//! filter, then the fixed `latestby=cvp` aggregation mode. Every value
//! is percent-encoded byte by byte over its UTF-8 encoding. The reader
//! side ([`parse_matrix_query`]) accepts exactly that grammar, and the
//! round-trip law at the end of the module proves that a built query
//! reads back as the selectors it came from.

use vstd::prelude::*;

use vstd::utf8::{
    decode_utf8, encode_utf8, encode_utf8_decode_utf8, encode_utf8_valid_utf8,
    is_ascii_chars_encode_utf8, valid_utf8,
};

use crate::selector::{MainBranchMode, Selector, SelectorRep, Target, TargetRep};

verus! {

/// Bytes that percent-encoding passes through unchanged: the ASCII
/// letters and digits, `-`, `.`, `_` and `~`.
pub open spec fn is_unreserved(b: u8) -> bool {
    ||| (65 <= b && b <= 90)
    ||| (97 <= b && b <= 122)
    ||| (48 <= b && b <= 57)
    ||| b == 45
    ||| b == 46
    ||| b == 95
    ||| b == 126
}

/// The upper-case hexadecimal digit byte for a nibble.
pub open spec fn hexu(n: int) -> u8 {
    if 0 <= n < 10 {
        (48 + n) as u8
    } else if 10 <= n < 16 {
        (55 + n) as u8
    } else {
        0
    }
}

/// One byte percent-encoded: itself when unreserved, `%XX` otherwise.
pub open spec fn pct_byte(b: u8) -> Seq<u8> {
    if is_unreserved(b) {
        seq![b]
    } else {
        seq![37, hexu(b as int / 16), hexu(b as int % 16)]
    }
}

/// A byte string percent-encoded.
pub open spec fn pct_bytes(bs: Seq<u8>) -> Seq<u8>
    decreases bs.len(),
{
    if bs.len() == 0 {
        Seq::empty()
    } else {
        pct_byte(bs[0]) + pct_bytes(bs.drop_first())
    }
}

/// The value of an upper-case hexadecimal digit byte.
pub open spec fn hexu_val(b: u8) -> Option<u8> {
    if 48 <= b && b <= 57 {
        Some((b - 48) as u8)
    } else if 65 <= b && b <= 70 {
        Some((b - 55) as u8)
    } else {
        None
    }
}

/// Strict percent-decoding of the builder's own output alphabet: an
/// unreserved byte stands for itself, `%XX` for its byte, anything
/// else rejects.
pub open spec fn pct_decode(s: Seq<u8>) -> Option<Seq<u8>>
    decreases s.len(),
{
    if s.len() == 0 {
        Some(Seq::empty())
    } else if s[0] == 37 {
        if s.len() >= 3 {
            match (hexu_val(s[1]), hexu_val(s[2])) {
                (Some(hi), Some(lo)) => match pct_decode(s.skip(3)) {
                    Some(rest) => Some(seq![(hi * 16 + lo) as u8] + rest),
                    None => None,
                },
                _ => None,
            }
        } else {
            None
        }
    } else if is_unreserved(s[0]) {
        match pct_decode(s.drop_first()) {
            Some(rest) => Some(seq![s[0]] + rest),
            None => None,
        }
    } else {
        None
    }
}

/// Law: strict percent-decoding inverts percent-encoding on every byte
/// string.
pub proof fn lemma_pct_round_trip(bs: Seq<u8>)
    ensures
        pct_decode(pct_bytes(bs)) == Some(bs),
    decreases bs.len(),
{
    if bs.len() == 0 {
        assert(pct_bytes(bs) =~= Seq::<u8>::empty());
    } else {
        let b = bs[0];
        let rest = bs.drop_first();
        lemma_pct_round_trip(rest);
        let enc = pct_bytes(bs);
        assert(enc == pct_byte(b) + pct_bytes(rest));
        if is_unreserved(b) {
            assert(enc[0] == b);
            assert(enc.drop_first() =~= pct_bytes(rest));
            assert(seq![b] + rest =~= bs);
        } else {
            let hi = hexu(b as int / 16);
            let lo = hexu(b as int % 16);
            assert(enc[0] == 37);
            assert(enc.len() >= 3);
            assert(enc[1] == hi);
            assert(enc[2] == lo);
            assert(hexu_val(hi) == Some((b / 16) as u8));
            assert(hexu_val(lo) == Some((b % 16) as u8));
            assert((b / 16) * 16 + b % 16 == b) by (nonlinear_arith);
            assert(enc.skip(3) =~= pct_bytes(rest));
            assert(seq![b] + rest =~= bs);
        }
    }
}

/// No percent-encoded byte string contains a query separator.
pub proof fn lemma_pct_separator_free(bs: Seq<u8>)
    ensures
        forall|i: int|
            0 <= i < pct_bytes(bs).len() ==> #[trigger] pct_bytes(bs)[i] != 38 && pct_bytes(
                bs,
            )[i] != 61,
    decreases bs.len(),
{
    if bs.len() > 0 {
        lemma_pct_separator_free(bs.drop_first());
        assert(pct_bytes(bs) == pct_byte(bs[0]) + pct_bytes(bs.drop_first()));
    }
}

fn hexu_byte(n: u8) -> (r: u8)
    requires
        n < 16,
    ensures
        r == hexu(n as int),
{
    if n < 10 {
        48 + n
    } else {
        55 + n
    }
}

fn is_unreserved_byte(b: u8) -> (r: bool)
    ensures
        r == is_unreserved(b),
{
    (b >= 65 && b <= 90) || (b >= 97 && b <= 122) || (b >= 48 && b <= 57) || b == 45
        || b == 46 || b == 95 || b == 126
}

/// Appends the percent-encoding of a string's UTF-8 bytes.
fn push_pct(out: &mut Vec<u8>, s: &str)
    ensures
        final(out)@ == old(out)@ + pct_bytes(encode_utf8(s@)),
{
    let bytes = s.as_bytes();
    let ghost bv = bytes@;
    let mut i: usize = 0;
    proof {
        assert(bv.skip(0) =~= bv);
        assert(old(out)@ + pct_bytes(bv.skip(0)) == old(out)@ + pct_bytes(bv));
    }
    while i < bytes.len()
        invariant
            bv == bytes@,
            i <= bv.len(),
            old(out)@ + pct_bytes(bv) == out@ + pct_bytes(bv.skip(i as int)),
        decreases bv.len() - i,
    {
        proof {
            assert(bv.skip(i as int)[0] == bv[i as int]);
            assert(bv.skip(i as int).drop_first() =~= bv.skip(i as int + 1));
        }
        let b = bytes[i];
        if is_unreserved_byte(b) {
            out.push(b);
        } else {
            out.push(37);
            out.push(hexu_byte(b / 16));
            out.push(hexu_byte(b % 16));
        }
        i = i + 1;
    }
    proof {
        assert(pct_bytes(bv.skip(bv.len() as int)) =~= Seq::<u8>::empty());
        assert(out@ + Seq::<u8>::empty() =~= out@);
    }
}

/// `/matrix?`, the fixed path and query marker.
pub open spec fn lit_matrix_prefix() -> Seq<u8> {
    seq!['/' as u8, 'm' as u8, 'a' as u8, 't' as u8, 'r' as u8, 'i' as u8, 'x' as u8, '?' as u8]
}

/// `q[][pacticipant]=`.
pub open spec fn key_pacticipant() -> Seq<u8> {
    seq![
        'q' as u8,
        '[' as u8,
        ']' as u8,
        '[' as u8,
        'p' as u8,
        'a' as u8,
        'c' as u8,
        't' as u8,
        'i' as u8,
        'c' as u8,
        'i' as u8,
        'p' as u8,
        'a' as u8,
        'n' as u8,
        't' as u8,
        ']' as u8,
        '=' as u8,
    ]
}

/// `q[][version]=`.
pub open spec fn key_version() -> Seq<u8> {
    seq![
        'q' as u8,
        '[' as u8,
        ']' as u8,
        '[' as u8,
        'v' as u8,
        'e' as u8,
        'r' as u8,
        's' as u8,
        'i' as u8,
        'o' as u8,
        'n' as u8,
        ']' as u8,
        '=' as u8,
    ]
}

/// `q[][branch]=`.
pub open spec fn key_branch() -> Seq<u8> {
    seq![
        'q' as u8,
        '[' as u8,
        ']' as u8,
        '[' as u8,
        'b' as u8,
        'r' as u8,
        'a' as u8,
        'n' as u8,
        'c' as u8,
        'h' as u8,
        ']' as u8,
        '=' as u8,
    ]
}

/// `latest=true`.
pub open spec fn lit_latest_true() -> Seq<u8> {
    seq![
        'l' as u8,
        'a' as u8,
        't' as u8,
        'e' as u8,
        's' as u8,
        't' as u8,
        '=' as u8,
        't' as u8,
        'r' as u8,
        'u' as u8,
        'e' as u8,
    ]
}

/// `environment=`.
pub open spec fn key_environment() -> Seq<u8> {
    seq![
        'e' as u8,
        'n' as u8,
        'v' as u8,
        'i' as u8,
        'r' as u8,
        'o' as u8,
        'n' as u8,
        'm' as u8,
        'e' as u8,
        'n' as u8,
        't' as u8,
        '=' as u8,
    ]
}

/// `tag=`.
pub open spec fn key_tag() -> Seq<u8> {
    seq!['t' as u8, 'a' as u8, 'g' as u8, '=' as u8]
}

/// `latestby=cvp`, the fixed aggregation mode: latest by
/// consumer-version pair. A protocol constant, not user-configurable.
pub open spec fn lit_latestby() -> Seq<u8> {
    seq![
        'l' as u8,
        'a' as u8,
        't' as u8,
        'e' as u8,
        's' as u8,
        't' as u8,
        'b' as u8,
        'y' as u8,
        '=' as u8,
        'c' as u8,
        'v' as u8,
        'p' as u8,
    ]
}

/// A percent-encoded value: the encoding of the string's UTF-8 bytes.
pub open spec fn enc_value(v: Seq<char>) -> Seq<u8> {
    pct_bytes(encode_utf8(v))
}

/// The query pairs one selector contributes: its pacticipant pair, then
/// its strategy pair. A pinned version wins over latest, latest over a
/// branch; a selector with none of the three contributes the
/// pacticipant pair alone. The main-branch tri-state and a selector's
/// own tag filter have no representation in this grammar.
pub open spec fn sel_parts(s: SelectorRep) -> Seq<Seq<u8>> {
    seq![key_pacticipant() + enc_value(s.pacticipant)] + (match s.version {
        Some(v) => seq![key_version() + enc_value(v)],
        None => if s.latest {
            seq![lit_latest_true()]
        } else {
            match s.branch {
                Some(b) => seq![key_branch() + enc_value(b)],
                None => Seq::empty(),
            }
        },
    })
}

/// The pairs of all selectors, in declaration order.
pub open spec fn parts_of_sels(sels: Seq<SelectorRep>) -> Seq<Seq<u8>>
    decreases sels.len(),
{
    if sels.len() == 0 {
        Seq::empty()
    } else {
        sel_parts(sels[0]) + parts_of_sels(sels.drop_first())
    }
}

/// The pair the target filter contributes, if any.
pub open spec fn target_parts(t: Option<TargetRep>) -> Seq<Seq<u8>> {
    match t {
        Some(TargetRep::Environment(e)) => seq![key_environment() + enc_value(e)],
        Some(TargetRep::Tag(g)) => seq![key_tag() + enc_value(g)],
        None => Seq::empty(),
    }
}

/// Every pair of one query: selectors, then the target, then the fixed
/// aggregation mode.
pub open spec fn query_parts(sels: Seq<SelectorRep>, t: Option<TargetRep>) -> Seq<Seq<u8>> {
    parts_of_sels(sels) + target_parts(t) + seq![lit_latestby()]
}

/// Pairs joined by `&`.
pub open spec fn join_amp(parts: Seq<Seq<u8>>) -> Seq<u8>
    decreases parts.len(),
{
    if parts.len() == 0 {
        Seq::empty()
    } else if parts.len() == 1 {
        parts[0]
    } else {
        parts[0] + seq![38u8] + join_amp(parts.drop_first())
    }
}

/// The whole query string of one matrix lookup, as bytes.
pub open spec fn spec_matrix_query(sels: Seq<SelectorRep>, t: Option<TargetRep>) -> Seq<u8> {
    lit_matrix_prefix() + join_amp(query_parts(sels, t))
}

/// Appending one pair to a joined query adds one separator unless the
/// query was empty.
pub proof fn lemma_join_amp_push(parts: Seq<Seq<u8>>, p: Seq<u8>)
    ensures
        join_amp(parts.push(p)) == if parts.len() == 0 {
            p
        } else {
            join_amp(parts) + seq![38u8] + p
        },
    decreases parts.len(),
{
    if parts.len() == 0 {
        assert(parts.push(p)[0] =~= p);
        assert(join_amp(parts.push(p)) == p);
    } else {
        lemma_join_amp_push(parts.drop_first(), p);
        assert(parts.push(p).drop_first() =~= parts.drop_first().push(p));
        if parts.len() == 1 {
            assert(join_amp(parts) == parts[0]);
        } else {
            assert((parts[0] + seq![38u8] + join_amp(parts.drop_first())) + seq![38u8] + p =~= parts[0]
                + seq![38u8] + (join_amp(parts.drop_first()) + seq![38u8] + p));
        }
    }
}

/// The pairs of one more selector are appended at the end.
pub proof fn lemma_parts_of_sels_push(sels: Seq<SelectorRep>, s: SelectorRep)
    ensures
        parts_of_sels(sels.push(s)) == parts_of_sels(sels) + sel_parts(s),
    decreases sels.len(),
{
    if sels.len() == 0 {
        assert(sels.push(s)[0] == s);
        assert(sels.push(s).drop_first() =~= Seq::<SelectorRep>::empty());
        assert(parts_of_sels(sels.push(s)) == sel_parts(s) + parts_of_sels(
            Seq::<SelectorRep>::empty(),
        ));
        assert(sel_parts(s) + Seq::<Seq<u8>>::empty() =~= sel_parts(s));
        assert(parts_of_sels(sels) + sel_parts(s) =~= sel_parts(s));
    } else {
        lemma_parts_of_sels_push(sels.drop_first(), s);
        assert(sels.push(s).drop_first() =~= sels.drop_first().push(s));
        assert(sels.push(s)[0] == sels[0]);
        assert(sel_parts(sels[0]) + (parts_of_sels(sels.drop_first()) + sel_parts(s))
            =~= (sel_parts(sels[0]) + parts_of_sels(sels.drop_first())) + sel_parts(s));
    }
}

/// All bytes are ASCII.
pub open spec fn is_ascii_bytes(bs: Seq<u8>) -> bool {
    forall|i: int| 0 <= i < bs.len() ==> #[trigger] bs[i] < 128
}

/// The characters an ASCII byte string spells.
pub open spec fn ascii_chars_of(bs: Seq<u8>) -> Seq<char> {
    Seq::new(bs.len(), |i: int| bs[i] as char)
}

/// An ASCII byte string is valid UTF-8, decodes to its own characters,
/// and encodes back to itself.
pub proof fn lemma_ascii_bytes_utf8(bs: Seq<u8>)
    requires
        is_ascii_bytes(bs),
    ensures
        valid_utf8(bs),
        decode_utf8(bs) == ascii_chars_of(bs),
        encode_utf8(ascii_chars_of(bs)) == bs,
{
    let cs = ascii_chars_of(bs);
    assert forall|i| 0 <= i < cs.len() implies '\0' <= #[trigger] cs[i] <= '\u{7f}' by {
        assert(bs[i] < 128);
        assert(cs[i] == bs[i] as char);
    }
    assert(vstd::utf8::is_ascii_chars(cs));
    is_ascii_chars_encode_utf8(cs);
    assert(encode_utf8(cs) =~= bs);
    encode_utf8_valid_utf8(cs);
    encode_utf8_decode_utf8(cs);
}

/// Every byte of a percent-encoding is ASCII.
pub proof fn lemma_pct_bytes_ascii(bs: Seq<u8>)
    ensures
        is_ascii_bytes(pct_bytes(bs)),
    decreases bs.len(),
{
    if bs.len() > 0 {
        lemma_pct_bytes_ascii(bs.drop_first());
        assert(pct_bytes(bs) == pct_byte(bs[0]) + pct_bytes(bs.drop_first()));
        assert forall|i: int| 0 <= i < pct_bytes(bs).len() implies #[trigger] pct_bytes(bs)[i]
            < 128 by {
            if i < pct_byte(bs[0]).len() {
                assert(pct_bytes(bs)[i] == pct_byte(bs[0])[i]);
            } else {
                assert(pct_bytes(bs)[i] == pct_bytes(bs.drop_first())[i - pct_byte(
                    bs[0],
                ).len()]);
            }
        }
    }
}

fn push_lit_matrix_prefix(out: &mut Vec<u8>)
    ensures
        final(out)@ == old(out)@ + lit_matrix_prefix(),
{
    out.push('/' as u8);
    out.push('m' as u8);
    out.push('a' as u8);
    out.push('t' as u8);
    out.push('r' as u8);
    out.push('i' as u8);
    out.push('x' as u8);
    out.push('?' as u8);
    proof {
        assert(out@ =~= old(out)@ + lit_matrix_prefix());
    }
}

fn push_key_pacticipant(out: &mut Vec<u8>)
    ensures
        final(out)@ == old(out)@ + key_pacticipant(),
{
    out.push('q' as u8);
    out.push('[' as u8);
    out.push(']' as u8);
    out.push('[' as u8);
    out.push('p' as u8);
    out.push('a' as u8);
    out.push('c' as u8);
    out.push('t' as u8);
    out.push('i' as u8);
    out.push('c' as u8);
    out.push('i' as u8);
    out.push('p' as u8);
    out.push('a' as u8);
    out.push('n' as u8);
    out.push('t' as u8);
    out.push(']' as u8);
    out.push('=' as u8);
    proof {
        assert(out@ =~= old(out)@ + key_pacticipant());
    }
}

fn push_key_version(out: &mut Vec<u8>)
    ensures
        final(out)@ == old(out)@ + key_version(),
{
    out.push('q' as u8);
    out.push('[' as u8);
    out.push(']' as u8);
    out.push('[' as u8);
    out.push('v' as u8);
    out.push('e' as u8);
    out.push('r' as u8);
    out.push('s' as u8);
    out.push('i' as u8);
    out.push('o' as u8);
    out.push('n' as u8);
    out.push(']' as u8);
    out.push('=' as u8);
    proof {
        assert(out@ =~= old(out)@ + key_version());
    }
}

fn push_key_branch(out: &mut Vec<u8>)
    ensures
        final(out)@ == old(out)@ + key_branch(),
{
    out.push('q' as u8);
    out.push('[' as u8);
    out.push(']' as u8);
    out.push('[' as u8);
    out.push('b' as u8);
    out.push('r' as u8);
    out.push('a' as u8);
    out.push('n' as u8);
    out.push('c' as u8);
    out.push('h' as u8);
    out.push(']' as u8);
    out.push('=' as u8);
    proof {
        assert(out@ =~= old(out)@ + key_branch());
    }
}

fn push_lit_latest_true(out: &mut Vec<u8>)
    ensures
        final(out)@ == old(out)@ + lit_latest_true(),
{
    out.push('l' as u8);
    out.push('a' as u8);
    out.push('t' as u8);
    out.push('e' as u8);
    out.push('s' as u8);
    out.push('t' as u8);
    out.push('=' as u8);
    out.push('t' as u8);
    out.push('r' as u8);
    out.push('u' as u8);
    out.push('e' as u8);
    proof {
        assert(out@ =~= old(out)@ + lit_latest_true());
    }
}

fn push_key_environment(out: &mut Vec<u8>)
    ensures
        final(out)@ == old(out)@ + key_environment(),
{
    out.push('e' as u8);
    out.push('n' as u8);
    out.push('v' as u8);
    out.push('i' as u8);
    out.push('r' as u8);
    out.push('o' as u8);
    out.push('n' as u8);
    out.push('m' as u8);
    out.push('e' as u8);
    out.push('n' as u8);
    out.push('t' as u8);
    out.push('=' as u8);
    proof {
        assert(out@ =~= old(out)@ + key_environment());
    }
}

fn push_key_tag(out: &mut Vec<u8>)
    ensures
        final(out)@ == old(out)@ + key_tag(),
{
    out.push('t' as u8);
    out.push('a' as u8);
    out.push('g' as u8);
    out.push('=' as u8);
    proof {
        assert(out@ =~= old(out)@ + key_tag());
    }
}

fn push_lit_latestby(out: &mut Vec<u8>)
    ensures
        final(out)@ == old(out)@ + lit_latestby(),
{
    out.push('l' as u8);
    out.push('a' as u8);
    out.push('t' as u8);
    out.push('e' as u8);
    out.push('s' as u8);
    out.push('t' as u8);
    out.push('b' as u8);
    out.push('y' as u8);
    out.push('=' as u8);
    out.push('c' as u8);
    out.push('v' as u8);
    out.push('p' as u8);
    proof {
        assert(out@ =~= old(out)@ + lit_latestby());
    }
}

/// Appends one query pair to the output, preceded by `&` unless it is
/// the first pair.
fn emit_part(out: &mut Vec<u8>, part: &Vec<u8>, first: bool)
    ensures
        final(out)@ == old(out)@ + (if first {
            Seq::<u8>::empty()
        } else {
            seq![38u8]
        }) + part@,
{
    if !first {
        out.push(38);
    }
    let mut i: usize = 0;
    let ghost mid = out@;
    while i < part.len()
        invariant
            i <= part@.len(),
            out@ == mid + part@.take(i as int),
        decreases part@.len() - i,
    {
        out.push(part[i]);
        proof {
            assert(mid + part@.take(i as int) + seq![part@[i as int]] =~= mid + part@.take(
                i as int + 1,
            ));
        }
        i = i + 1;
    }
    proof {
        assert(part@.take(part@.len() as int) =~= part@);
        assert(out@ =~= old(out)@ + (if first {
            Seq::<u8>::empty()
        } else {
            seq![38u8]
        }) + part@);
    }
}

/// Builds the matrix query string for the given selectors and target:
/// `/matrix?` followed by the selector pairs in declaration order, the
/// target pair, and the fixed `latestby=cvp`, with every value
/// percent-encoded.
#[verifier::rlimit(60)]
pub fn build_matrix_query(selectors: &Vec<Selector>, target: &Option<Target>) -> (r: String)
    ensures
        encode_utf8(r@) == spec_matrix_query(
            selectors@.map_values(|s: Selector| s@),
            crate::selector::opt_target_view(*target),
        ),
        r@ == decode_utf8(
            spec_matrix_query(
                selectors@.map_values(|s: Selector| s@),
                crate::selector::opt_target_view(*target),
            ),
        ),
{
    let ghost sv = selectors@.map_values(|s: Selector| s@);
    let ghost tv = crate::selector::opt_target_view(*target);
    let mut out: Vec<u8> = Vec::new();
    push_lit_matrix_prefix(&mut out);
    let ghost mut parts: Seq<Seq<u8>> = Seq::empty();
    let mut first: bool = true;
    proof {
        assert(out@ =~= lit_matrix_prefix() + join_amp(parts));
        assert(parts_of_sels(sv.take(0)) =~= Seq::<Seq<u8>>::empty());
        assert(is_ascii_bytes(out@));
    }
    let mut i: usize = 0;
    while i < selectors.len()
        invariant
            sv == selectors@.map_values(|s: Selector| s@),
            sv.len() == selectors@.len(),
            i <= sv.len(),
            parts == parts_of_sels(sv.take(i as int)),
            out@ == lit_matrix_prefix() + join_amp(parts),
            first == (parts.len() == 0),
            is_ascii_bytes(out@),
        decreases sv.len() - i,
    {
        let s = &selectors[i];
        let ghost srep = sv[i as int];
        proof {
            assert(srep == s@);
        }
        let mut part: Vec<u8> = Vec::new();
        push_key_pacticipant(&mut part);
        push_pct(&mut part, s.pacticipant.as_str());
        proof {
            assert(part@ == key_pacticipant() + enc_value(srep.pacticipant));
            lemma_pct_bytes_ascii(encode_utf8(srep.pacticipant));
            lemma_join_amp_push(parts, part@);
        }
        emit_part(&mut out, &part, first);
        proof {
            parts = parts.push(part@);
            assert(out@ =~= lit_matrix_prefix() + join_amp(parts));
            assert(is_ascii_bytes(out@));
        }
        first = false;
        let mut strategy: Option<Vec<u8>> = None;
        match &s.version {
            Some(v) => {
                let mut p2: Vec<u8> = Vec::new();
                push_key_version(&mut p2);
                push_pct(&mut p2, v.as_str());
                proof {
                    lemma_pct_bytes_ascii(encode_utf8(v@));
                }
                strategy = Some(p2);
            },
            None => {
                if s.latest {
                    let mut p2: Vec<u8> = Vec::new();
                    push_lit_latest_true(&mut p2);
                    strategy = Some(p2);
                } else {
                    match &s.branch {
                        Some(b) => {
                            let mut p2: Vec<u8> = Vec::new();
                            push_key_branch(&mut p2);
                            push_pct(&mut p2, b.as_str());
                            proof {
                                lemma_pct_bytes_ascii(encode_utf8(b@));
                            }
                            strategy = Some(p2);
                        },
                        None => {},
                    }
                }
            },
        }
        match &strategy {
            Some(p2) => {
                proof {
                    lemma_join_amp_push(parts, p2@);
                }
                emit_part(&mut out, p2, false);
                proof {
                    parts = parts.push(p2@);
                    assert(out@ =~= lit_matrix_prefix() + join_amp(parts));
                    assert(is_ascii_bytes(out@));
                    assert(sel_parts(srep) =~= seq![key_pacticipant() + enc_value(
                        srep.pacticipant,
                    )].push(p2@));
                }
            },
            None => {
                proof {
                    assert(sel_parts(srep) =~= seq![key_pacticipant() + enc_value(
                        srep.pacticipant,
                    )]);
                }
            },
        }
        proof {
            assert(sv.take(i as int + 1) =~= sv.take(i as int).push(srep));
            lemma_parts_of_sels_push(sv.take(i as int), srep);
            assert(parts =~= parts_of_sels(sv.take(i as int)) + sel_parts(srep));
        }
        i = i + 1;
    }
    proof {
        assert(sv.take(sv.len() as int) =~= sv);
    }
    match target {
        Some(Target::Environment(e)) => {
            let mut part: Vec<u8> = Vec::new();
            push_key_environment(&mut part);
            push_pct(&mut part, e.as_str());
            proof {
                lemma_pct_bytes_ascii(encode_utf8(e@));
                lemma_join_amp_push(parts, part@);
            }
            emit_part(&mut out, &part, first);
            proof {
                parts = parts.push(part@);
                assert(out@ =~= lit_matrix_prefix() + join_amp(parts));
                assert(is_ascii_bytes(out@));
                assert(parts =~= parts_of_sels(sv) + target_parts(tv));
            }
            first = false;
        },
        Some(Target::Tag(g)) => {
            let mut part: Vec<u8> = Vec::new();
            push_key_tag(&mut part);
            push_pct(&mut part, g.as_str());
            proof {
                lemma_pct_bytes_ascii(encode_utf8(g@));
                lemma_join_amp_push(parts, part@);
            }
            emit_part(&mut out, &part, first);
            proof {
                parts = parts.push(part@);
                assert(out@ =~= lit_matrix_prefix() + join_amp(parts));
                assert(is_ascii_bytes(out@));
                assert(parts =~= parts_of_sels(sv) + target_parts(tv));
            }
            first = false;
        },
        None => {
            proof {
                assert(parts =~= parts_of_sels(sv) + target_parts(tv));
            }
        },
    }
    let mut tail: Vec<u8> = Vec::new();
    push_lit_latestby(&mut tail);
    proof {
        lemma_join_amp_push(parts, tail@);
    }
    emit_part(&mut out, &tail, first);
    proof {
        parts = parts.push(tail@);
        assert(out@ =~= lit_matrix_prefix() + join_amp(parts));
        assert(is_ascii_bytes(out@));
        assert(parts =~= query_parts(sv, tv));
        lemma_ascii_bytes_utf8(out@);
    }
    let ghost qbytes = out@;
    match crate::strutil::string_from_utf8(out) {
        Some(r) => {
            proof {
                assert(encode_utf8(r@) == qbytes);
            }
            r
        },
        None => {
            proof {
                assert(false);
            }
            String::new()
        },
    }
}

/// The first index at or after `from` where byte `b` occurs, or the
/// length when it does not.
pub open spec fn find_byte(s: Seq<u8>, b: u8, from: nat) -> int
    decreases s.len() - from,
{
    if from >= s.len() {
        s.len() as int
    } else if s[from as int] == b {
        from as int
    } else {
        find_byte(s, b, (from + 1) as nat)
    }
}

pub proof fn lemma_find_byte_hit(s: Seq<u8>, b: u8, from: nat, idx: int)
    requires
        from <= idx < s.len(),
        s[idx] == b,
        forall|m: int| from <= m < idx ==> s[m] != b,
    ensures
        find_byte(s, b, from) == idx,
    decreases idx - from,
{
    if from < idx {
        lemma_find_byte_hit(s, b, (from + 1) as nat, idx);
    }
}

pub proof fn lemma_find_byte_miss(s: Seq<u8>, b: u8, from: nat)
    requires
        forall|m: int| from <= m < s.len() ==> s[m] != b,
    ensures
        find_byte(s, b, from) == s.len(),
    decreases s.len() - from,
{
    if from < s.len() {
        lemma_find_byte_miss(s, b, (from + 1) as nat);
    }
}

/// A query split at every `&`.
pub open spec fn split_amp(s: Seq<u8>) -> Seq<Seq<u8>>
    decreases s.len(),
{
    let k = find_byte(s, 38, 0);
    if 0 <= k < s.len() {
        seq![s.take(k)] + split_amp(s.skip(k + 1))
    } else {
        seq![s]
    }
}

/// A pair contains no separator.
pub open spec fn amp_free(p: Seq<u8>) -> bool {
    forall|i: int| 0 <= i < p.len() ==> #[trigger] p[i] != 38
}

/// Law: splitting on `&` undoes joining with `&`, as long as no pair
/// contains a separator of its own.
pub proof fn lemma_split_join(parts: Seq<Seq<u8>>)
    requires
        parts.len() > 0,
        forall|j: int| 0 <= j < parts.len() ==> amp_free(#[trigger] parts[j]),
    ensures
        split_amp(join_amp(parts)) == parts,
    decreases parts.len(),
{
    let q = join_amp(parts);
    if parts.len() == 1 {
        assert(q == parts[0]);
        lemma_find_byte_miss(q, 38, 0);
        assert(split_amp(q) =~= parts);
    } else {
        let p0 = parts[0];
        let rest = parts.drop_first();
        assert(q == p0 + seq![38u8] + join_amp(rest));
        assert(q[p0.len() as int] == 38);
        assert forall|m: int| 0 <= m < p0.len() implies q[m] != 38 by {
            assert(q[m] == p0[m]);
        }
        lemma_find_byte_hit(q, 38, 0, p0.len() as int);
        assert(q.take(p0.len() as int) =~= p0);
        assert(q.skip(p0.len() as int + 1) =~= join_amp(rest));
        assert forall|j: int| 0 <= j < rest.len() implies amp_free(#[trigger] rest[j]) by {
            assert(rest[j] == parts[j + 1]);
        }
        lemma_split_join(rest);
        assert(seq![p0] + rest =~= parts);
    }
}

/// Whether `key` is a prefix of `tok`.
pub open spec fn has_prefix(tok: Seq<u8>, key: Seq<u8>) -> bool {
    key.len() <= tok.len() && tok.take(key.len() as int) == key
}

/// A percent-encoded value read back: strict percent-decoding followed
/// by UTF-8 decoding.
pub open spec fn dec_value(bs: Seq<u8>) -> Option<Seq<char>> {
    match pct_decode(bs) {
        Some(raw) => if valid_utf8(raw) {
            Some(decode_utf8(raw))
        } else {
            None
        },
        None => None,
    }
}

/// The reader's state: selectors so far, the target so far, and whether
/// the closing `latestby=cvp` pair has been seen.
pub open spec fn parse_token(
    st: (Seq<SelectorRep>, Option<TargetRep>, bool),
    tok: Seq<u8>,
) -> Option<(Seq<SelectorRep>, Option<TargetRep>, bool)> {
    if st.2 {
        None
    } else if tok == lit_latestby() {
        Some((st.0, st.1, true))
    } else if tok == lit_latest_true() {
        if st.0.len() == 0 {
            None
        } else {
            Some(
                (
                    st.0.update(
                        st.0.len() - 1,
                        SelectorRep { latest: true, ..st.0.last() },
                    ),
                    st.1,
                    false,
                ),
            )
        }
    } else if has_prefix(tok, key_pacticipant()) {
        match dec_value(tok.skip(key_pacticipant().len() as int)) {
            Some(p) => Some((st.0.push(crate::selector::spec_new_selector(p)), st.1, false)),
            None => None,
        }
    } else if has_prefix(tok, key_version()) {
        match dec_value(tok.skip(key_version().len() as int)) {
            Some(v) => if st.0.len() == 0 {
                None
            } else {
                Some(
                    (
                        st.0.update(
                            st.0.len() - 1,
                            SelectorRep { version: Some(v), ..st.0.last() },
                        ),
                        st.1,
                        false,
                    ),
                )
            },
            None => None,
        }
    } else if has_prefix(tok, key_branch()) {
        match dec_value(tok.skip(key_branch().len() as int)) {
            Some(b) => if st.0.len() == 0 {
                None
            } else {
                Some(
                    (
                        st.0.update(
                            st.0.len() - 1,
                            SelectorRep { branch: Some(b), ..st.0.last() },
                        ),
                        st.1,
                        false,
                    ),
                )
            },
            None => None,
        }
    } else if has_prefix(tok, key_environment()) {
        match dec_value(tok.skip(key_environment().len() as int)) {
            Some(e) => if st.1 is Some {
                None
            } else {
                Some((st.0, Some(TargetRep::Environment(e)), false))
            },
            None => None,
        }
    } else if has_prefix(tok, key_tag()) {
        match dec_value(tok.skip(key_tag().len() as int)) {
            Some(g) => if st.1 is Some {
                None
            } else {
                Some((st.0, Some(TargetRep::Tag(g)), false))
            },
            None => None,
        }
    } else {
        None
    }
}

/// The reader's fold over all pairs, in order.
pub open spec fn parse_fold(tokens: Seq<Seq<u8>>) -> Option<
    (Seq<SelectorRep>, Option<TargetRep>, bool),
>
    decreases tokens.len(),
{
    if tokens.len() == 0 {
        Some((Seq::empty(), None, false))
    } else {
        match parse_fold(tokens.drop_last()) {
            None => None,
            Some(st) => parse_token(st, tokens.last()),
        }
    }
}

/// Reading a whole query string: the fixed prefix, then the pairs, and
/// the closing `latestby=cvp` must be the last pair.
pub open spec fn spec_parse_matrix_query(q: Seq<u8>) -> Option<
    (Seq<SelectorRep>, Option<TargetRep>),
> {
    if has_prefix(q, lit_matrix_prefix()) {
        match parse_fold(split_amp(q.skip(lit_matrix_prefix().len() as int))) {
            Some((sels, t, true)) => Some((sels, t)),
            _ => None,
        }
    } else {
        None
    }
}

/// A selector the query grammar can carry in full: exactly one of a
/// pinned version, latest, or a branch, with no tag filter and the
/// main-branch tri-state left out.
pub open spec fn spec_representable(s: SelectorRep) -> bool {
    &&& s.tag is None
    &&& s.main_branch == MainBranchMode::Omit
    &&& {
        ||| (s.version is Some && !s.latest && s.branch is None)
        ||| (s.version is None && s.latest && s.branch is None)
        ||| (s.version is None && !s.latest && s.branch is Some)
    }
}

proof fn lemma_concat_amp_free(a: Seq<u8>, b: Seq<u8>)
    requires
        amp_free(a),
        amp_free(b),
    ensures
        amp_free(a + b),
{
    assert forall|i: int| 0 <= i < (a + b).len() implies #[trigger] (a + b)[i] != 38 by {
        if i < a.len() {
            assert((a + b)[i] == a[i]);
        } else {
            assert((a + b)[i] == b[i - a.len()]);
        }
    }
}

proof fn lemma_enc_value_amp_free(v: Seq<char>)
    ensures
        amp_free(enc_value(v)),
{
    lemma_pct_separator_free(encode_utf8(v));
}

/// Reading back one percent-encoded value yields the original string.
proof fn lemma_dec_enc_value(v: Seq<char>)
    ensures
        dec_value(enc_value(v)) == Some(v),
{
    lemma_pct_round_trip(encode_utf8(v));
    encode_utf8_valid_utf8(v);
    encode_utf8_decode_utf8(v);
}

/// Every pair a query is built from is separator-free.
proof fn lemma_sel_parts_amp_free(s: SelectorRep)
    ensures
        forall|j: int| 0 <= j < sel_parts(s).len() ==> amp_free(#[trigger] sel_parts(s)[j]),
{
    assert(amp_free(key_pacticipant()));
    assert(amp_free(key_version()));
    assert(amp_free(key_branch()));
    assert(amp_free(lit_latest_true()));
    lemma_enc_value_amp_free(s.pacticipant);
    lemma_concat_amp_free(key_pacticipant(), enc_value(s.pacticipant));
    match s.version {
        Some(v) => {
            lemma_enc_value_amp_free(v);
            lemma_concat_amp_free(key_version(), enc_value(v));
        },
        None => {
            match s.branch {
                Some(b) => {
                    lemma_enc_value_amp_free(b);
                    lemma_concat_amp_free(key_branch(), enc_value(b));
                },
                None => {},
            }
        },
    }
}

proof fn lemma_parts_of_sels_amp_free(sels: Seq<SelectorRep>)
    ensures
        forall|j: int|
            0 <= j < parts_of_sels(sels).len() ==> amp_free(#[trigger] parts_of_sels(sels)[j]),
    decreases sels.len(),
{
    if sels.len() > 0 {
        lemma_sel_parts_amp_free(sels[0]);
        lemma_parts_of_sels_amp_free(sels.drop_first());
        assert(parts_of_sels(sels) == sel_parts(sels[0]) + parts_of_sels(sels.drop_first()));
        assert forall|j: int| 0 <= j < parts_of_sels(sels).len() implies amp_free(
            #[trigger] parts_of_sels(sels)[j],
        ) by {
            if j < sel_parts(sels[0]).len() {
                assert(parts_of_sels(sels)[j] == sel_parts(sels[0])[j]);
            } else {
                assert(parts_of_sels(sels)[j] == parts_of_sels(sels.drop_first())[j - sel_parts(
                    sels[0],
                ).len()]);
            }
        }
    }
}

proof fn lemma_query_parts_amp_free(sels: Seq<SelectorRep>, t: Option<TargetRep>)
    ensures
        forall|j: int|
            0 <= j < query_parts(sels, t).len() ==> amp_free(#[trigger] query_parts(sels, t)[j]),
{
    lemma_parts_of_sels_amp_free(sels);
    assert(amp_free(key_environment()));
    assert(amp_free(key_tag()));
    assert(amp_free(lit_latestby()));
    match t {
        Some(TargetRep::Environment(e)) => {
            lemma_enc_value_amp_free(e);
            lemma_concat_amp_free(key_environment(), enc_value(e));
        },
        Some(TargetRep::Tag(g)) => {
            lemma_enc_value_amp_free(g);
            lemma_concat_amp_free(key_tag(), enc_value(g));
        },
        None => {},
    }
    let ps = query_parts(sels, t);
    assert forall|j: int| 0 <= j < ps.len() implies amp_free(#[trigger] ps[j]) by {
        let a = parts_of_sels(sels);
        let b = target_parts(t);
        if j < a.len() {
            assert(ps[j] == a[j]);
        } else if j < a.len() + b.len() {
            assert(ps[j] == b[j - a.len()]);
        } else {
            assert(ps[j] == lit_latestby());
        }
    }
}

/// Reading the two pairs of one representable selector appends exactly
/// that selector.
#[verifier::rlimit(100)]
#[verifier::spinoff_prover]
proof fn lemma_parse_one_selector(
    ps: Seq<Seq<u8>>,
    ss: Seq<SelectorRep>,
    tt: Option<TargetRep>,
    s: SelectorRep,
)
    requires
        parse_fold(ps) == Some((ss, tt, false)),
        spec_representable(s),
    ensures
        parse_fold(ps + sel_parts(s)) == Some((ss.push(s), tt, false)),
{
    let p1 = key_pacticipant() + enc_value(s.pacticipant);
    lemma_dec_enc_value(s.pacticipant);
    assert(p1.take(key_pacticipant().len() as int) =~= key_pacticipant());
    assert(p1.skip(key_pacticipant().len() as int) =~= enc_value(s.pacticipant));
    assert(p1.len() >= 17);
    assert(p1 != lit_latestby()) by {
        assert(p1[0] == 'q' as u8);
        assert(lit_latestby()[0] == 'l' as u8);
    }
    assert(p1 != lit_latest_true()) by {
        assert(p1[0] == 'q' as u8);
        assert(lit_latest_true()[0] == 'l' as u8);
    }
    let st1 = (ss.push(crate::selector::spec_new_selector(s.pacticipant)), tt, false);
    assert(parse_token((ss, tt, false), p1) == Some(st1));
    let mid = ps + seq![p1];
    assert(mid.drop_last() =~= ps);
    assert(mid.last() == p1);
    assert(parse_fold(mid) == Some(st1));
    let sel0 = crate::selector::spec_new_selector(s.pacticipant);
    if s.version is Some {
        let v = s.version->0;
        let p2 = key_version() + enc_value(v);
        lemma_dec_enc_value(v);
        assert(p2.take(key_version().len() as int) =~= key_version());
        assert(p2.skip(key_version().len() as int) =~= enc_value(v));
        assert(p2 != lit_latestby()) by {
            assert(p2[0] == 'q' as u8);
            assert(lit_latestby()[0] == 'l' as u8);
        }
        assert(p2 != lit_latest_true()) by {
            assert(p2[0] == 'q' as u8);
            assert(lit_latest_true()[0] == 'l' as u8);
        }
        assert(!has_prefix(p2, key_pacticipant())) by {
            if has_prefix(p2, key_pacticipant()) {
                assert(p2.take(17)[4] == key_pacticipant()[4]);
                assert(p2[4] == 'v' as u8);
            }
        }
        let updated = SelectorRep { version: Some(v), ..sel0 };
        assert(parse_token(st1, p2) == Some(
            (st1.0.update(st1.0.len() - 1, updated), tt, false),
        ));
        assert(st1.0.update(st1.0.len() - 1, updated) =~= ss.push(updated));
        assert(updated == s);
        let full = ps + sel_parts(s);
        assert(sel_parts(s) =~= seq![p1, p2]);
        assert(full.drop_last() =~= mid);
        assert(full.last() == p2);
    } else if s.latest {
        let p2 = lit_latest_true();
        assert(p2 != lit_latestby()) by {
            assert(p2.len() == 11);
            assert(lit_latestby().len() == 12);
        }
        let updated = SelectorRep { latest: true, ..sel0 };
        assert(parse_token(st1, p2) == Some(
            (st1.0.update(st1.0.len() - 1, updated), tt, false),
        ));
        assert(st1.0.update(st1.0.len() - 1, updated) =~= ss.push(updated));
        assert(updated == s);
        let full = ps + sel_parts(s);
        assert(sel_parts(s) =~= seq![p1, p2]);
        assert(full.drop_last() =~= mid);
        assert(full.last() == p2);
    } else {
        let b = s.branch->0;
        let p2 = key_branch() + enc_value(b);
        lemma_dec_enc_value(b);
        assert(p2.take(key_branch().len() as int) =~= key_branch());
        assert(p2.skip(key_branch().len() as int) =~= enc_value(b));
        assert(p2 != lit_latestby()) by {
            assert(p2[0] == 'q' as u8);
            assert(lit_latestby()[0] == 'l' as u8);
        }
        assert(p2 != lit_latest_true()) by {
            assert(p2[0] == 'q' as u8);
            assert(lit_latest_true()[0] == 'l' as u8);
        }
        assert(!has_prefix(p2, key_pacticipant())) by {
            if has_prefix(p2, key_pacticipant()) {
                assert(p2.take(17)[4] == key_pacticipant()[4]);
                assert(p2[4] == 'b' as u8);
            }
        }
        assert(!has_prefix(p2, key_version())) by {
            if has_prefix(p2, key_version()) {
                assert(p2.take(13)[4] == key_version()[4]);
                assert(p2[4] == 'b' as u8);
            }
        }
        let updated = SelectorRep { branch: Some(b), ..sel0 };
        assert(parse_token(st1, p2) == Some(
            (st1.0.update(st1.0.len() - 1, updated), tt, false),
        ));
        assert(st1.0.update(st1.0.len() - 1, updated) =~= ss.push(updated));
        assert(updated == s);
        let full = ps + sel_parts(s);
        assert(sel_parts(s) =~= seq![p1, p2]);
        assert(full.drop_last() =~= mid);
        assert(full.last() == p2);
    }
}

/// Reading the pairs of a representable selector list yields exactly
/// those selectors.
proof fn lemma_parse_sels(sels: Seq<SelectorRep>)
    requires
        forall|i: int| 0 <= i < sels.len() ==> spec_representable(#[trigger] sels[i]),
    ensures
        parse_fold(parts_of_sels(sels)) == Some((sels, None::<TargetRep>, false)),
    decreases sels.len(),
{
    if sels.len() == 0 {
        assert(parts_of_sels(sels) =~= Seq::<Seq<u8>>::empty());
        assert(sels =~= Seq::<SelectorRep>::empty());
    } else {
        let init = sels.drop_last();
        let s = sels.last();
        assert forall|i: int| 0 <= i < init.len() implies spec_representable(
            #[trigger] init[i],
        ) by {
            assert(init[i] == sels[i]);
        }
        lemma_parse_sels(init);
        lemma_parse_one_selector(parts_of_sels(init), init, None, s);
        assert(init.push(s) =~= sels);
        assert(sels.drop_last().push(sels.last()) =~= sels);
        lemma_parts_of_sels_push(init, s);
        assert(parts_of_sels(init.push(s)) == parts_of_sels(init) + sel_parts(s));
        assert(parts_of_sels(sels) == parts_of_sels(init) + sel_parts(s));
    }
}

/// Law: a built matrix query reads back as exactly the selectors and
/// target it was built from, in order, as long as every selector uses a
/// strategy the grammar can carry.
#[verifier::rlimit(100)]
#[verifier::spinoff_prover]
pub proof fn lemma_matrix_query_round_trip(sels: Seq<SelectorRep>, t: Option<TargetRep>)
    requires
        forall|i: int| 0 <= i < sels.len() ==> spec_representable(#[trigger] sels[i]),
    ensures
        spec_parse_matrix_query(spec_matrix_query(sels, t)) == Some((sels, t)),
{
    let parts = query_parts(sels, t);
    let q = spec_matrix_query(sels, t);
    assert(q.take(lit_matrix_prefix().len() as int) =~= lit_matrix_prefix());
    assert(has_prefix(q, lit_matrix_prefix()));
    assert(q.skip(lit_matrix_prefix().len() as int) =~= join_amp(parts));
    lemma_query_parts_amp_free(sels, t);
    assert(parts.len() > 0);
    lemma_split_join(parts);
    lemma_parse_sels(sels);
    let after_target: Seq<Seq<u8>> = parts_of_sels(sels) + target_parts(t);
    match t {
        Some(TargetRep::Environment(e)) => {
            let p = key_environment() + enc_value(e);
            lemma_dec_enc_value(e);
            assert(p.take(key_environment().len() as int) =~= key_environment());
            assert(p.skip(key_environment().len() as int) =~= enc_value(e));
            assert(p != lit_latestby()) by {
                assert(p[0] == 'e' as u8);
                assert(lit_latestby()[0] == 'l' as u8);
            }
            assert(p != lit_latest_true()) by {
                assert(p[0] == 'e' as u8);
                assert(lit_latest_true()[0] == 'l' as u8);
            }
            assert(!has_prefix(p, key_pacticipant())) by {
                if has_prefix(p, key_pacticipant()) {
                    assert(p.take(17)[0] == key_pacticipant()[0]);
                    assert(p[0] == 'e' as u8);
                }
            }
            assert(!has_prefix(p, key_version())) by {
                if has_prefix(p, key_version()) {
                    assert(p.take(13)[0] == key_version()[0]);
                    assert(p[0] == 'e' as u8);
                }
            }
            assert(!has_prefix(p, key_branch())) by {
                if has_prefix(p, key_branch()) {
                    assert(p.take(12)[0] == key_branch()[0]);
                    assert(p[0] == 'e' as u8);
                }
            }
            assert(after_target.drop_last() =~= parts_of_sels(sels));
            assert(after_target.last() == p);
            assert(parse_fold(after_target) == Some((sels, Some(TargetRep::Environment(e)), false)));
        },
        Some(TargetRep::Tag(g)) => {
            let p = key_tag() + enc_value(g);
            lemma_dec_enc_value(g);
            assert(p.take(key_tag().len() as int) =~= key_tag());
            assert(p.skip(key_tag().len() as int) =~= enc_value(g));
            assert(p != lit_latestby()) by {
                assert(p[0] == 't' as u8);
                assert(lit_latestby()[0] == 'l' as u8);
            }
            assert(p != lit_latest_true()) by {
                assert(p[0] == 't' as u8);
                assert(lit_latest_true()[0] == 'l' as u8);
            }
            assert(!has_prefix(p, key_pacticipant())) by {
                if has_prefix(p, key_pacticipant()) {
                    assert(p.take(17)[0] == key_pacticipant()[0]);
                    assert(p[0] == 't' as u8);
                }
            }
            assert(!has_prefix(p, key_version())) by {
                if has_prefix(p, key_version()) {
                    assert(p.take(13)[0] == key_version()[0]);
                    assert(p[0] == 't' as u8);
                }
            }
            assert(!has_prefix(p, key_branch())) by {
                if has_prefix(p, key_branch()) {
                    assert(p.take(12)[0] == key_branch()[0]);
                    assert(p[0] == 't' as u8);
                }
            }
            assert(!has_prefix(p, key_environment())) by {
                if has_prefix(p, key_environment()) {
                    assert(p.take(12)[0] == key_environment()[0]);
                    assert(p[0] == 't' as u8);
                }
            }
            assert(after_target.drop_last() =~= parts_of_sels(sels));
            assert(after_target.last() == p);
            assert(parse_fold(after_target) == Some((sels, Some(TargetRep::Tag(g)), false)));
        },
        None => {
            assert(after_target =~= parts_of_sels(sels));
        },
    }
    assert(parse_fold(after_target) == Some((sels, t, false)));
    assert(parts.drop_last() =~= after_target);
    assert(parts.last() == lit_latestby());
    assert(parse_token((sels, t, false), lit_latestby()) == Some((sels, t, true)));
    assert(parse_fold(parts) == Some((sels, t, true)));
}

/// Once the reader has failed on a prefix of the pairs, the rest
/// cannot recover it.
proof fn lemma_parse_fold_none_extends(a: Seq<Seq<u8>>, b: Seq<Seq<u8>>)
    requires
        parse_fold(a) is None,
    ensures
        parse_fold(a + b) is None,
    decreases b.len(),
{
    if b.len() == 0 {
        assert(a + b =~= a);
    } else {
        lemma_parse_fold_none_extends(a, b.drop_last());
        assert((a + b).drop_last() =~= a + b.drop_last());
        assert((a + b).len() > 0);
    }
}

fn key_vec(which: u8) -> (v: Vec<u8>)
    requires
        which < 7,
    ensures
        v@ == (if which == 0 {
            key_pacticipant()
        } else if which == 1 {
            key_version()
        } else if which == 2 {
            key_branch()
        } else if which == 3 {
            key_environment()
        } else if which == 4 {
            key_tag()
        } else if which == 5 {
            lit_latest_true()
        } else {
            lit_latestby()
        }),
{
    let mut v: Vec<u8> = Vec::new();
    if which == 0 {
        push_key_pacticipant(&mut v);
    } else if which == 1 {
        push_key_version(&mut v);
    } else if which == 2 {
        push_key_branch(&mut v);
    } else if which == 3 {
        push_key_environment(&mut v);
    } else if which == 4 {
        push_key_tag(&mut v);
    } else if which == 5 {
        push_lit_latest_true(&mut v);
    } else {
        push_lit_latestby(&mut v);
    }
    proof {
        assert(Seq::<u8>::empty() + key_pacticipant() =~= key_pacticipant());
        assert(Seq::<u8>::empty() + key_version() =~= key_version());
        assert(Seq::<u8>::empty() + key_branch() =~= key_branch());
        assert(Seq::<u8>::empty() + key_environment() =~= key_environment());
        assert(Seq::<u8>::empty() + key_tag() =~= key_tag());
        assert(Seq::<u8>::empty() + lit_latest_true() =~= lit_latest_true());
        assert(Seq::<u8>::empty() + lit_latestby() =~= lit_latestby());
    }
    v
}

fn bytes_eq(a: &Vec<u8>, b: &Vec<u8>) -> (r: bool)
    ensures
        r == (a@ == b@),
{
    if a.len() != b.len() {
        return false;
    }
    let mut i: usize = 0;
    while i < a.len()
        invariant
            a@.len() == b@.len(),
            i <= a@.len(),
            forall|j: int| 0 <= j < i ==> a@[j] == b@[j],
        decreases a@.len() - i,
    {
        if a[i] != b[i] {
            return false;
        }
        i = i + 1;
    }
    proof {
        assert(a@ =~= b@);
    }
    true
}

fn vec_has_prefix(tok: &Vec<u8>, key: &Vec<u8>) -> (r: bool)
    ensures
        r == has_prefix(tok@, key@),
{
    if key.len() > tok.len() {
        return false;
    }
    let mut i: usize = 0;
    while i < key.len()
        invariant
            key@.len() <= tok@.len(),
            i <= key@.len(),
            forall|j: int| 0 <= j < i ==> tok@[j] == key@[j],
        decreases key@.len() - i,
    {
        if tok[i] != key[i] {
            proof {
                assert(tok@.take(key@.len() as int)[i as int] != key@[i as int]);
            }
            return false;
        }
        i = i + 1;
    }
    proof {
        assert(tok@.take(key@.len() as int) =~= key@);
    }
    true
}

fn vec_suffix(tok: &Vec<u8>, n: usize) -> (r: Vec<u8>)
    requires
        n <= tok@.len(),
    ensures
        r@ == tok@.skip(n as int),
{
    let mut r: Vec<u8> = Vec::new();
    let mut i: usize = n;
    while i < tok.len()
        invariant
            n <= i <= tok@.len(),
            r@ == tok@.subrange(n as int, i as int),
        decreases tok@.len() - i,
    {
        r.push(tok[i]);
        proof {
            assert(tok@.subrange(n as int, i as int).push(tok@[i as int]) =~= tok@.subrange(
                n as int,
                i as int + 1,
            ));
        }
        i = i + 1;
    }
    proof {
        assert(tok@.subrange(n as int, tok@.len() as int) =~= tok@.skip(n as int));
    }
    r
}

fn hex_val_byte(b: u8) -> (r: Option<u8>)
    ensures
        r == hexu_val(b),
{
    if b >= 48 && b <= 57 {
        Some(b - 48)
    } else if b >= 65 && b <= 70 {
        Some(b - 55)
    } else {
        None
    }
}

/// Strict percent-decoding, byte for byte.
fn pct_decode_vec(bs: &Vec<u8>) -> (r: Option<Vec<u8>>)
    ensures
        match r {
            Some(out) => pct_decode(bs@) == Some(out@),
            None => pct_decode(bs@) is None,
        },
{
    let mut out: Vec<u8> = Vec::new();
    let mut i: usize = 0;
    proof {
        assert(bs@.skip(0) =~= bs@);
    }
    while i < bs.len()
        invariant
            i <= bs@.len(),
            pct_decode(bs@) is Some <==> pct_decode(bs@.skip(i as int)) is Some,
            pct_decode(bs@.skip(i as int)) matches Some(rest) ==> pct_decode(bs@) == Some(
                out@ + rest,
            ),
        decreases bs@.len() - i,
    {
        let ghost t = bs@.skip(i as int);
        proof {
            assert(t[0] == bs@[i as int]);
        }
        let b = bs[i];
        if b == 37 {
            if bs.len() - i < 3 {
                proof {
                    assert(t.len() < 3);
                }
                return None;
            }
            proof {
                assert(t[1] == bs@[i as int + 1]);
                assert(t[2] == bs@[i as int + 2]);
                assert(t.skip(3) =~= bs@.skip(i as int + 3));
            }
            let hi = match hex_val_byte(bs[i + 1]) {
                Some(h) => h,
                None => {
                    return None;
                },
            };
            let lo = match hex_val_byte(bs[i + 2]) {
                Some(l) => l,
                None => {
                    return None;
                },
            };
            out.push(hi * 16 + lo);
            proof {
                assert(out@.drop_last() + (seq![(hi * 16 + lo) as u8] + pct_decode(
                    bs@.skip(i as int + 3),
                )->0) =~= out@ + pct_decode(bs@.skip(i as int + 3))->0);
            }
            i = i + 3;
        } else if is_unreserved_byte(b) {
            proof {
                assert(t.drop_first() =~= bs@.skip(i as int + 1));
            }
            out.push(b);
            proof {
                assert(out@.drop_last() + (seq![t[0]] + pct_decode(bs@.skip(i as int + 1))->0)
                    =~= out@ + pct_decode(bs@.skip(i as int + 1))->0);
            }
            i = i + 1;
        } else {
            return None;
        }
    }
    proof {
        assert(bs@.skip(bs@.len() as int) =~= Seq::<u8>::empty());
        assert(out@ + Seq::<u8>::empty() =~= out@);
    }
    Some(out)
}

/// A percent-encoded value read back into a string.
fn decode_value_vec(bs: &Vec<u8>) -> (r: Option<String>)
    ensures
        match r {
            Some(s) => dec_value(bs@) == Some(s@),
            None => dec_value(bs@) is None,
        },
{
    let raw = match pct_decode_vec(bs) {
        Some(raw) => raw,
        None => {
            return None;
        },
    };
    crate::strutil::string_from_utf8(raw)
}

/// Reads one query string, the exact inverse of the builder's grammar:
/// the fixed prefix, `&`-separated pairs, selectors folded positionally,
/// at most one target, and the closing `latestby=cvp` as the last pair.
/// Returns `None` on anything the builder could not have produced.
#[verifier::rlimit(100)]
#[verifier::loop_isolation(false)]
pub fn parse_matrix_query(q: &str) -> (r: Option<(Vec<Selector>, Option<Target>)>)
    ensures
        match r {
            Some((sels, t)) => spec_parse_matrix_query(encode_utf8(q@)) == Some(
                (sels@.map_values(|s: Selector| s@), crate::selector::opt_target_view(t)),
            ),
            None => spec_parse_matrix_query(encode_utf8(q@)) is None,
        },
{
    let bytes: Vec<u8> = vstd::slice::slice_to_vec(q.as_bytes());
    let ghost bv = bytes@;
    proof {
        assert(bv == encode_utf8(q@));
    }
    let kpre = {
        let mut v: Vec<u8> = Vec::new();
        push_lit_matrix_prefix(&mut v);
        proof {
            assert(Seq::<u8>::empty() + lit_matrix_prefix() =~= lit_matrix_prefix());
        }
        v
    };
    if !vec_has_prefix(&bytes, &kpre) {
        return None;
    }
    let kpact = key_vec(0);
    let kver = key_vec(1);
    let kbr = key_vec(2);
    let kenv = key_vec(3);
    let ktag = key_vec(4);
    let klatest = key_vec(5);
    let klatestby = key_vec(6);

    let len = bytes.len();
    let ghost rest = bv.skip(8);
    let mut sels: Vec<Selector> = Vec::new();
    let mut target: Option<Target> = None;
    let mut latestby_seen: bool = false;
    let ghost mut done: Seq<Seq<u8>> = Seq::empty();
    let mut pos: usize = 8;
    proof {
        assert(Seq::<Seq<u8>>::empty() + split_amp(bv.skip(8)) =~= split_amp(bv.skip(8)));
        assert(parse_fold(done) == Some(
            (
                Seq::<SelectorRep>::empty(),
                None::<TargetRep>,
                false,
            ),
        ));
        assert(sels@.map_values(|s: Selector| s@) =~= Seq::<SelectorRep>::empty());
    }
    loop
        invariant
            bv == encode_utf8(q@),
            len == bv.len(),
            kpact@ == key_pacticipant(),
            kver@ == key_version(),
            kbr@ == key_branch(),
            kenv@ == key_environment(),
            ktag@ == key_tag(),
            klatest@ == lit_latest_true(),
            klatestby@ == lit_latestby(),
            8 <= pos <= len,
            rest == bv.skip(8),
            split_amp(rest) == done + split_amp(bv.skip(pos as int)),
            parse_fold(done) == Some(
                (
                    sels@.map_values(|s: Selector| s@),
                    crate::selector::opt_target_view(target),
                    latestby_seen,
                ),
            ),
        decreases len - pos,
    {
        let ghost suffix = bv.skip(pos as int);
        // scan for the next separator
        let mut j: usize = pos;
        while j < len && bytes[j] != 38
            invariant
                pos <= j <= len,
                forall|k: int| pos <= k < j ==> bv[k] != 38,
            decreases len - j,
        {
            j = j + 1;
        }
        proof {
            assert forall|m: int| 0 <= m < j - pos implies suffix[m] != 38 by {
                assert(suffix[m] == bv[pos + m]);
            }
            if j < len {
                assert(suffix[j - pos] == bv[j as int]);
                lemma_find_byte_hit(suffix, 38, 0, j - pos);
            } else {
                lemma_find_byte_miss(suffix, 38, 0);
            }
        }
        let tok = {
            let mut tok: Vec<u8> = Vec::new();
            let mut k: usize = pos;
            while k < j
                invariant
                    pos <= k <= j <= len,
                    len == bv.len(),
                    bv == bytes@,
                    tok@ == bv.subrange(pos as int, k as int),
                decreases j - k,
            {
                tok.push(bytes[k]);
                proof {
                    assert(bv.subrange(pos as int, k as int).push(bv[k as int]) =~= bv.subrange(
                        pos as int,
                        k as int + 1,
                    ));
                }
                k = k + 1;
            }
            tok
        };
        proof {
            assert(tok@ =~= suffix.take(j - pos));
            if j < len {
                assert(split_amp(suffix) == seq![tok@] + split_amp(suffix.skip(j - pos + 1)));
                assert(suffix.skip(j - pos + 1) =~= bv.skip(j as int + 1));
            } else {
                assert(suffix.take(j - pos) =~= suffix);
                assert(split_amp(suffix) == seq![tok@]);
            }
            assert((done + seq![tok@]).drop_last() =~= done);
            assert((done + seq![tok@]).last() == tok@);
        }
        let ghost st = (
            sels@.map_values(|s: Selector| s@),
            crate::selector::opt_target_view(target),
            latestby_seen,
        );
        // apply the pair to the reader's state, mirroring the grammar
        let ok: bool = if latestby_seen {
            false
        } else if bytes_eq(&tok, &klatestby) {
            latestby_seen = true;
            true
        } else if bytes_eq(&tok, &klatest) {
            if sels.len() == 0 {
                false
            } else {
                let k = sels.len() - 1;
                let mut cur = sels.remove(k);
                cur.latest = true;
                sels.push(cur);
                proof {
                    assert(sels@.map_values(|s: Selector| s@) =~= st.0.update(
                        st.0.len() - 1,
                        SelectorRep { latest: true, ..st.0.last() },
                    ));
                }
                true
            }
        } else if vec_has_prefix(&tok, &kpact) {
            match decode_value_vec(&vec_suffix(&tok, kpact.len())) {
                Some(p) => {
                    sels.push(
                        Selector {
                            pacticipant: p,
                            version: None,
                            latest: false,
                            branch: None,
                            main_branch: MainBranchMode::Omit,
                            tag: None,
                        },
                    );
                    proof {
                        assert(sels@.map_values(|s: Selector| s@) =~= st.0.push(
                            crate::selector::spec_new_selector(sels@.last().pacticipant@),
                        ));
                    }
                    true
                },
                None => false,
            }
        } else if vec_has_prefix(&tok, &kver) {
            match decode_value_vec(&vec_suffix(&tok, kver.len())) {
                Some(v) => {
                    if sels.len() == 0 {
                        false
                    } else {
                        let k = sels.len() - 1;
                        let mut cur = sels.remove(k);
                        cur.version = Some(v);
                        sels.push(cur);
                        proof {
                            assert(sels@.map_values(|s: Selector| s@) =~= st.0.update(
                                st.0.len() - 1,
                                SelectorRep {
                                    version: sels@.last()@.version,
                                    ..st.0.last()
                                },
                            ));
                        }
                        true
                    }
                },
                None => false,
            }
        } else if vec_has_prefix(&tok, &kbr) {
            match decode_value_vec(&vec_suffix(&tok, kbr.len())) {
                Some(b) => {
                    if sels.len() == 0 {
                        false
                    } else {
                        let k = sels.len() - 1;
                        let mut cur = sels.remove(k);
                        cur.branch = Some(b);
                        sels.push(cur);
                        proof {
                            assert(sels@.map_values(|s: Selector| s@) =~= st.0.update(
                                st.0.len() - 1,
                                SelectorRep {
                                    branch: sels@.last()@.branch,
                                    ..st.0.last()
                                },
                            ));
                        }
                        true
                    }
                },
                None => false,
            }
        } else if vec_has_prefix(&tok, &kenv) {
            match decode_value_vec(&vec_suffix(&tok, kenv.len())) {
                Some(e) => {
                    if target.is_some() {
                        false
                    } else {
                        target = Some(Target::Environment(e));
                        true
                    }
                },
                None => false,
            }
        } else if vec_has_prefix(&tok, &ktag) {
            match decode_value_vec(&vec_suffix(&tok, ktag.len())) {
                Some(g) => {
                    if target.is_some() {
                        false
                    } else {
                        target = Some(Target::Tag(g));
                        true
                    }
                },
                None => false,
            }
        } else {
            false
        };
        if !ok {
            proof {
                assert(parse_token(st, tok@) is None);
                assert(parse_fold(done + seq![tok@]) is None);
                if j < len {
                    lemma_parse_fold_none_extends(done + seq![tok@], split_amp(bv.skip(j + 1)));
                    assert(done + split_amp(suffix) =~= (done + seq![tok@]) + split_amp(
                        bv.skip(j + 1),
                    ));
                } else {
                    assert(done + split_amp(suffix) =~= done + seq![tok@]);
                }
            }
            return None;
        }
        proof {
            assert(parse_token(st, tok@) == Some(
                (
                    sels@.map_values(|s: Selector| s@),
                    crate::selector::opt_target_view(target),
                    latestby_seen,
                ),
            ));
            done = done + seq![tok@];
            assert(parse_fold(done) == Some(
                (
                    sels@.map_values(|s: Selector| s@),
                    crate::selector::opt_target_view(target),
                    latestby_seen,
                ),
            ));
            if j < len {
                assert(done + split_amp(bv.skip(j + 1)) =~= (done.drop_last() + (seq![tok@]
                    + split_amp(bv.skip(j + 1)))));
            }
        }
        if j < len {
            pos = j + 1;
        } else {
            proof {
                assert(split_amp(rest) =~= done);
            }
            if latestby_seen {
                return Some((sels, target));
            } else {
                return None;
            }
        }
    }
}

} // verus!
