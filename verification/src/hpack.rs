//! HPACK header compression (RFC 7541): the prefixed-integer and string
//! primitives, the static and dynamic indexing tables, and the header-block
//! encoder and decoder.
//!
//! The decoder follows the four first-byte patterns: indexed field, literal
//! with incremental indexing, dynamic-table size update, and literal without
//! indexing (never-indexed included). The encoder emits every field as a
//! literal without indexing, which any conforming peer decodes back to the
//! same list; the round trip is proved below.

use vstd::prelude::*;

use crate::types::spec_pow2;
use crate::types::lemma_pow2_values;
use crate::types::HpackError;
use crate::huffman::huffman_decode;
use crate::huffman::spec_huffman_decode;
use crate::frame::subvec;
use vstd::string::StringSliceAdditionalSpecFns;
use vstd::string::StrSliceExecFns;

verus! {

// --- the integer primitive --------------------------------------------------

/// The continuation octets of an integer too large for its prefix: seven
/// value bits per octet, least significant first, high bit set on all but
/// the last octet.
pub open spec fn spec_enc_int_rest(v: nat) -> Seq<u8>
    decreases v,
{
    if v < 128 {
        seq![v as u8]
    } else {
        seq![(v % 128 + 128) as u8] + spec_enc_int_rest(v / 128)
    }
}

/// The octets of `v` under an `prefix`-bit prefix whose unused high bits are
/// `hi`: the prefix holds `v` itself when it fits below the all-ones
/// pattern, else the saturated prefix followed by continuation octets.
pub open spec fn spec_enc_int(hi: u8, prefix: nat, v: nat) -> Seq<u8> {
    let max = (spec_pow2(prefix) - 1) as nat;
    if v < max {
        seq![(hi + v) as u8]
    } else {
        seq![(hi + max) as u8] + spec_enc_int_rest((v - max) as nat)
    }
}

/// Decodes continuation octets: the value they carry and how many were read.
pub open spec fn spec_dec_int_rest(b: Seq<u8>) -> Result<(nat, int), HpackError>
    decreases b.len(),
{
    if b.len() == 0 {
        Err(HpackError::Truncated)
    } else if b[0] < 128 {
        Ok((b[0] as nat, 1))
    } else {
        match spec_dec_int_rest(b.skip(1)) {
            Ok((v, n)) => Ok((((b[0] - 128) + 128 * v) as nat, n + 1)),
            Err(e) => Err(e),
        }
    }
}

/// Decodes an integer under a `prefix`-bit prefix from the head of `b`: the
/// value and how many octets it occupied.
pub open spec fn spec_dec_int(b: Seq<u8>, prefix: nat) -> Result<(nat, int), HpackError> {
    let max = (spec_pow2(prefix) - 1) as nat;
    if b.len() == 0 {
        Err(HpackError::Truncated)
    } else {
        let p = (b[0] as nat) % spec_pow2(prefix);
        if p < max {
            Ok((p, 1))
        } else {
            match spec_dec_int_rest(b.skip(1)) {
                Ok((v, n)) => Ok(((max + v) as nat, n + 1)),
                Err(e) => Err(e),
            }
        }
    }
}

/// A decoded integer occupies at least one octet and no more than the
/// buffer.
pub proof fn lemma_dec_int_rest_bounds(b: Seq<u8>)
    ensures
        spec_dec_int_rest(b) matches Ok((v, n)) ==> 1 <= n <= b.len(),
    decreases b.len(),
{
    if b.len() == 0 {
    } else if b[0] < 128 {
    } else {
        lemma_dec_int_rest_bounds(b.skip(1));
    }
}

/// A decoded integer occupies at least one octet and no more than the
/// buffer.
pub proof fn lemma_dec_int_bounds(b: Seq<u8>, prefix: nat)
    ensures
        spec_dec_int(b, prefix) matches Ok((v, n)) ==> 1 <= n <= b.len(),
{
    if b.len() != 0 {
        lemma_dec_int_rest_bounds(b.skip(1));
    }
}

/// Appends the integer encoding of `v` under a `prefix`-bit prefix with
/// high bits `hi`.
pub fn encode_integer_into(out: &mut Vec<u8>, hi: u8, prefix: u8, v: u32)
    requires
        1 <= prefix <= 7,
        hi as nat % spec_pow2(prefix as nat) == 0,
        hi as nat + spec_pow2(prefix as nat) <= 256,
    ensures
        final(out)@ == old(out)@ + spec_enc_int(hi, prefix as nat, v as nat),
{
    proof {
        lemma_pow2_values();
    }
    let max: u8 = match prefix {
        1 => 1,
        2 => 3,
        3 => 7,
        4 => 15,
        5 => 31,
        6 => 63,
        _ => 127,
    };
    assert(max as nat == (spec_pow2(prefix as nat) - 1) as nat);
    if v < max as u32 {
        out.push(hi + (v as u8));
        assert(out@ =~= old(out)@ + spec_enc_int(hi, prefix as nat, v as nat));
    } else {
        out.push(hi + max);
        let ghost prefix_written = out@;
        let mut r: u32 = v - max as u32;
        let ghost r0 = r as nat;
        while r >= 128
            invariant
                spec_enc_int_rest(r0) =~= out@.skip(prefix_written.len() as int)
                    + spec_enc_int_rest(r as nat),
            out@.len() >= prefix_written.len(),
                out@.subrange(0, prefix_written.len() as int) == prefix_written,
            decreases r,
        {
            let ghost before = out@;
            out.push((r % 128 + 128) as u8);
            assert(out@.skip(prefix_written.len() as int) =~= before.skip(
                prefix_written.len() as int,
            ) + seq![(r as nat % 128 + 128) as u8]);
            assert(spec_enc_int_rest(r as nat) == seq![(r as nat % 128 + 128) as u8]
                + spec_enc_int_rest(r as nat / 128));
            assert(before.skip(prefix_written.len() as int) + (seq![(r as nat % 128 + 128) as u8]
                + spec_enc_int_rest(r as nat / 128)) =~= out@.skip(prefix_written.len() as int)
                + spec_enc_int_rest(r as nat / 128));
            r = r / 128;
        }
        let ghost before = out@;
        out.push(r as u8);
        assert(out@.skip(prefix_written.len() as int) =~= before.skip(prefix_written.len() as int)
            + seq![(r as nat) as u8]);
        assert(spec_enc_int_rest(r as nat) == seq![(r as nat) as u8]);
        assert(out@ =~= prefix_written + out@.skip(prefix_written.len() as int));
        assert(out@ =~= old(out)@ + spec_enc_int(hi, prefix as nat, v as nat));
    }
}

/// No continuation octet below 128 means the integer never ends.
pub proof fn lemma_dec_int_rest_all_cont(b: Seq<u8>)
    requires
        forall|j: int| 0 <= j < b.len() ==> b[j] >= 128,
    ensures
        spec_dec_int_rest(b) == Err::<(nat, int), HpackError>(HpackError::Truncated),
    decreases b.len(),
{
    if b.len() > 0 {
        lemma_dec_int_rest_all_cont(b.skip(1));
    }
}

/// Decodes an integer under a `prefix`-bit prefix at `pos`, rejecting
/// values above the 32-bit range. Returns the value and the position just
/// past it.
pub fn decode_integer(buf: &Vec<u8>, pos: usize, prefix: u8) -> (r: Result<
    (u32, usize),
    HpackError,
>)
    requires
        1 <= prefix <= 7,
        pos <= buf.len(),
    ensures
        ({
            let spec = spec_dec_int(buf@.skip(pos as int), prefix as nat);
            match r {
                Ok((v, end)) => {
                    &&& (spec matches Ok((sv, sn)) && sv == v as nat && end == pos + sn)
                    &&& pos < end <= buf.len()
                },
                Err(e) => match spec {
                    Ok((sv, sn)) => sv > u32::MAX && e == HpackError::InvalidIntegerOverflow,
                    Err(se) => se == e,
                },
            }
        }),
{
    proof {
        lemma_pow2_values();
    }
    let max: u8 = match prefix {
        1 => 1,
        2 => 3,
        3 => 7,
        4 => 15,
        5 => 31,
        6 => 63,
        _ => 127,
    };
    assert(max as nat == (spec_pow2(prefix as nat) - 1) as nat);
    if pos >= buf.len() {
        return Err(HpackError::Truncated);
    }
    let ghost b = buf@.skip(pos as int);
    assert(b[0] == buf@[pos as int]);
    let p = buf[pos] % (max + 1);
    assert(p as nat == (b[0] as nat) % spec_pow2(prefix as nat));
    if p < max {
        return Ok((p as u32, pos + 1));
    }
    // find the final continuation octet
    assert(buf@.skip(pos as int).skip(1) =~= buf@.skip(pos as int + 1));
    let mut end: usize = pos + 1;
    loop
        invariant
            pos + 1 <= end <= buf.len(),
            forall|j: int| pos + 1 <= j < end ==> buf@[j] >= 128,
            ({
                let whole = spec_dec_int(buf@.skip(pos as int), prefix as nat);
                match spec_dec_int_rest(buf@.skip(pos as int + 1)) {
                    Ok((v, n)) => whole == Ok::<(nat, int), HpackError>(
                        ((max as nat + v) as nat, n + 1),
                    ),
                    Err(e) => whole == Err::<(nat, int), HpackError>(e),
                }
            }),
        ensures
            end < buf.len(),
            buf@[end as int] < 128,
            forall|j: int| pos + 1 <= j < end ==> buf@[j] >= 128,
        decreases buf.len() - end,
    {
        if end >= buf.len() {
            proof {
                assert(forall|j: int|
                    0 <= j < buf@.skip(pos as int + 1).len() ==> #[trigger] buf@.skip(
                        pos as int + 1,
                    )[j] >= 128);
                lemma_dec_int_rest_all_cont(buf@.skip(pos as int + 1));
            }
            assert(buf@.skip(pos as int).skip(1) =~= buf@.skip(pos as int + 1));
            return Err(HpackError::Truncated);
        }
        if buf[end] < 128 {
            break ;
        }
        end = end + 1;
    }
    // fold the continuation octets, least significant last in the walk
    let mut v: u64 = buf[end] as u64;
    let mut over: bool = false;
    let mut j: usize = end;
    assert(buf@.skip(end as int)[0] == buf@[end as int]);
    assert(spec_dec_int_rest(buf@.skip(end as int)) == Ok::<(nat, int), HpackError>(
        (buf@[end as int] as nat, 1),
    ));
    while j > pos + 1
        invariant
            pos + 1 <= j <= end < buf.len(),
            forall|k: int| pos + 1 <= k < end ==> buf@[k] >= 128,
            !over ==> v <= u32::MAX as u64 && spec_dec_int_rest(buf@.skip(j as int)) == Ok::<
                (nat, int),
                HpackError,
            >((v as nat, end + 1 - j)),
            over ==> (spec_dec_int_rest(buf@.skip(j as int)) matches Ok((sv, sn)) && sv
                > u32::MAX && sn == end + 1 - j),
        decreases j,
    {
        j = j - 1;
        let octet = buf[j];
        assert(buf@.skip(j as int)[0] == buf@[j as int]);
        assert(buf@.skip(j as int).skip(1) =~= buf@.skip(j as int + 1));
        let low = (octet % 128) as u64;
        if over {
            proof {
                let prev = spec_dec_int_rest(buf@.skip(j as int + 1))->Ok_0;
                assert(prev.0 > u32::MAX ==> 128 * prev.0 > u32::MAX) by (nonlinear_arith);
            }
        } else {
            let next = low + 128 * v;
            if next > u32::MAX as u64 {
                over = true;
                proof {
                    assert((octet - 128) + 128 * (v as nat) == next as nat);
                }
            } else {
                v = next;
            }
        }
    }
    assert(buf@.skip(pos as int).skip(1) =~= buf@.skip(pos as int + 1));
    if over {
        return Err(HpackError::InvalidIntegerOverflow);
    }
    if v > (u32::MAX - max as u32) as u64 {
        return Err(HpackError::InvalidIntegerOverflow);
    }
    Ok((max as u32 + v as u32, end + 1))
}

/// Continuation octets decode back to the value they encode, whatever
/// follows them.
pub proof fn lemma_enc_int_rest_round_trip(v: nat, rest: Seq<u8>)
    ensures
        spec_dec_int_rest(spec_enc_int_rest(v) + rest) == Ok::<(nat, int), HpackError>(
            (v, spec_enc_int_rest(v).len() as int),
        ),
    decreases v,
{
    let b = spec_enc_int_rest(v) + rest;
    if v < 128 {
        assert(b[0] == v as u8);
    } else {
        assert(b[0] == (v % 128 + 128) as u8);
        lemma_enc_int_rest_round_trip(v / 128, rest);
        assert(b.skip(1) =~= spec_enc_int_rest(v / 128) + rest);
    }
}

/// A prefixed integer decodes back to the value it encodes, whatever
/// follows it.
pub proof fn lemma_enc_int_round_trip(hi: u8, prefix: nat, v: nat, rest: Seq<u8>)
    requires
        1 <= prefix <= 7,
        hi as nat % spec_pow2(prefix) == 0,
        hi as nat + spec_pow2(prefix) <= 256,
    ensures
        spec_dec_int(spec_enc_int(hi, prefix, v) + rest, prefix) == Ok::<(nat, int), HpackError>(
            (v, spec_enc_int(hi, prefix, v).len() as int),
        ),
{
    lemma_pow2_values();
    let m = spec_pow2(prefix);
    let max = (m - 1) as nat;
    let b = spec_enc_int(hi, prefix, v) + rest;
    assert((hi as nat + max) % m == max) by (nonlinear_arith)
        requires
            hi as nat % m == 0,
            2 <= m,
            max == m - 1,
    ;
    if v < max {
        assert((hi as nat + v) % m == v) by (nonlinear_arith)
            requires
                hi as nat % m == 0,
                2 <= m,
                0 <= v < m - 1,
        ;
    }
    if v < max {
        assert(b[0] == (hi + v) as u8);
    } else {
        assert(b[0] == (hi + max) as u8);
        lemma_enc_int_rest_round_trip((v - max) as nat, rest);
        assert(b.skip(1) =~= spec_enc_int_rest((v - max) as nat) + rest);
    }
}

// --- the string primitive ---------------------------------------------------

/// The wire octets of a string literal, sent raw: a 7-bit-prefix length
/// with the Huffman bit clear, then the octets themselves.
pub open spec fn spec_enc_str(s: Seq<u8>) -> Seq<u8> {
    spec_enc_int(0, 7, s.len()) + s
}

/// Decodes a string literal from the head of `b`: its octets (through the
/// Huffman code when the length octet has the high bit set) and how many
/// input octets it occupied.
pub open spec fn spec_dec_str(b: Seq<u8>) -> Result<(Seq<u8>, int), HpackError> {
    match spec_dec_int(b, 7) {
        Ok((len, n)) => {
            if len > u32::MAX {
                Err(HpackError::InvalidIntegerOverflow)
            } else if b.len() < n + len {
                Err(HpackError::Truncated)
            } else {
                let raw = b.subrange(n, n + len);
                if b[0] >= 0x80 {
                    match spec_huffman_decode(raw) {
                        Ok(s) => Ok((s, n + len)),
                        Err(e) => Err(e),
                    }
                } else {
                    Ok((raw, n + len))
                }
            }
        },
        Err(e) => Err(e),
    }
}

/// A decoded string occupies at least one octet and no more than the
/// buffer.
pub proof fn lemma_dec_str_bounds(b: Seq<u8>)
    ensures
        spec_dec_str(b) matches Ok((s, n)) ==> 1 <= n <= b.len(),
{
    lemma_dec_int_bounds(b, 7);
}

/// Appends the raw string encoding of `s`.
pub fn encode_string_into(out: &mut Vec<u8>, s: &Vec<u8>)
    requires
        s.len() <= u32::MAX,
    ensures
        final(out)@ == old(out)@ + spec_enc_str(s@),
{
    proof {
        lemma_pow2_values();
    }
    encode_integer_into(out, 0, 7, s.len() as u32);
    crate::frame::append_bytes(out, s);
    assert(final(out)@ =~= old(out)@ + spec_enc_str(s@));
}

/// Decodes a string literal at `pos`: its octets and the position just
/// past it.
pub fn decode_string(buf: &Vec<u8>, pos: usize) -> (r: Result<(Vec<u8>, usize), HpackError>)
    requires
        pos <= buf.len(),
    ensures
        ({
            let spec = spec_dec_str(buf@.skip(pos as int));
            match r {
                Ok((s, end)) => {
                    &&& (spec matches Ok((sv, sn)) && sv == s@ && end == pos + sn)
                    &&& pos < end <= buf.len()
                },
                Err(e) => spec == Err::<(Seq<u8>, int), HpackError>(e),
            }
        }),
{
    let ghost b = buf@.skip(pos as int);
    proof {
        lemma_dec_int_bounds(b, 7);
    }
    match decode_integer(buf, pos, 7) {
        Err(e) => {
            assert(spec_dec_str(b) is Err);
            Err(e)
        },
        Ok((len, n_end)) => {
            let ghost n = n_end - pos;
            if (len as usize) > buf.len() - n_end {
                assert(b.len() < n + len);
                return Err(HpackError::Truncated);
            }
            let data_end = n_end + len as usize;
            let raw = subvec(buf, n_end, data_end);
            assert(raw@ =~= b.subrange(n, n + len as int));
            assert(b[0] == buf@[pos as int]);
            if buf[pos] >= 0x80 {
                match huffman_decode(&raw) {
                    Ok(s) => Ok((s, data_end)),
                    Err(e) => Err(e),
                }
            } else {
                Ok((raw, data_end))
            }
        },
    }
}

/// A raw string literal decodes back to the octets it encodes, whatever
/// follows it.
pub proof fn lemma_enc_str_round_trip(s: Seq<u8>, rest: Seq<u8>)
    requires
        s.len() <= u32::MAX,
    ensures
        spec_dec_str(spec_enc_str(s) + rest) == Ok::<(Seq<u8>, int), HpackError>(
            (s, spec_enc_str(s).len() as int),
        ),
{
    lemma_pow2_values();
    let b = spec_enc_str(s) + rest;
    lemma_enc_int_round_trip(0, 7, s.len(), s + rest);
    assert(spec_enc_int(0, 7, s.len()) + (s + rest) =~= b);
    let n = spec_enc_int(0, 7, s.len()).len() as int;
    assert(spec_dec_int(b, 7) == Ok::<(nat, int), HpackError>((s.len(), n)));
    assert(b.subrange(n, n + s.len() as int) =~= s);
    assert(b[0] == spec_enc_int(0, 7, s.len())[0]);
    assert(b[0] < 0x80);
}

// --- the static table ---------------------------------------------------

/// Entry `i` of the fixed static table of RFC 7541 Appendix A,
/// indices 1 to 61.
#[verifier::opaque]
pub open spec fn spec_static_entry(i: int) -> (Seq<u8>, Seq<u8>) {
    if i == 1 {
        (":authority".spec_bytes(), "".spec_bytes())
    } else if i == 2 {
        (":method".spec_bytes(), "GET".spec_bytes())
    } else if i == 3 {
        (":method".spec_bytes(), "POST".spec_bytes())
    } else if i == 4 {
        (":path".spec_bytes(), "/".spec_bytes())
    } else if i == 5 {
        (":path".spec_bytes(), "/index.html".spec_bytes())
    } else if i == 6 {
        (":scheme".spec_bytes(), "http".spec_bytes())
    } else if i == 7 {
        (":scheme".spec_bytes(), "https".spec_bytes())
    } else if i == 8 {
        (":status".spec_bytes(), "200".spec_bytes())
    } else if i == 9 {
        (":status".spec_bytes(), "204".spec_bytes())
    } else if i == 10 {
        (":status".spec_bytes(), "206".spec_bytes())
    } else if i == 11 {
        (":status".spec_bytes(), "304".spec_bytes())
    } else if i == 12 {
        (":status".spec_bytes(), "400".spec_bytes())
    } else if i == 13 {
        (":status".spec_bytes(), "404".spec_bytes())
    } else if i == 14 {
        (":status".spec_bytes(), "500".spec_bytes())
    } else if i == 15 {
        ("accept-charset".spec_bytes(), "".spec_bytes())
    } else if i == 16 {
        ("accept-encoding".spec_bytes(), "gzip, deflate".spec_bytes())
    } else if i == 17 {
        ("accept-language".spec_bytes(), "".spec_bytes())
    } else if i == 18 {
        ("accept-ranges".spec_bytes(), "".spec_bytes())
    } else if i == 19 {
        ("accept".spec_bytes(), "".spec_bytes())
    } else if i == 20 {
        ("access-control-allow-origin".spec_bytes(), "".spec_bytes())
    } else if i == 21 {
        ("age".spec_bytes(), "".spec_bytes())
    } else if i == 22 {
        ("allow".spec_bytes(), "".spec_bytes())
    } else if i == 23 {
        ("authorization".spec_bytes(), "".spec_bytes())
    } else if i == 24 {
        ("cache-control".spec_bytes(), "".spec_bytes())
    } else if i == 25 {
        ("content-disposition".spec_bytes(), "".spec_bytes())
    } else if i == 26 {
        ("content-encoding".spec_bytes(), "".spec_bytes())
    } else if i == 27 {
        ("content-language".spec_bytes(), "".spec_bytes())
    } else if i == 28 {
        ("content-length".spec_bytes(), "".spec_bytes())
    } else if i == 29 {
        ("content-location".spec_bytes(), "".spec_bytes())
    } else if i == 30 {
        ("content-range".spec_bytes(), "".spec_bytes())
    } else if i == 31 {
        ("content-type".spec_bytes(), "".spec_bytes())
    } else if i == 32 {
        ("cookie".spec_bytes(), "".spec_bytes())
    } else if i == 33 {
        ("date".spec_bytes(), "".spec_bytes())
    } else if i == 34 {
        ("etag".spec_bytes(), "".spec_bytes())
    } else if i == 35 {
        ("expect".spec_bytes(), "".spec_bytes())
    } else if i == 36 {
        ("expires".spec_bytes(), "".spec_bytes())
    } else if i == 37 {
        ("from".spec_bytes(), "".spec_bytes())
    } else if i == 38 {
        ("host".spec_bytes(), "".spec_bytes())
    } else if i == 39 {
        ("if-match".spec_bytes(), "".spec_bytes())
    } else if i == 40 {
        ("if-modified-since".spec_bytes(), "".spec_bytes())
    } else if i == 41 {
        ("if-none-match".spec_bytes(), "".spec_bytes())
    } else if i == 42 {
        ("if-range".spec_bytes(), "".spec_bytes())
    } else if i == 43 {
        ("if-unmodified-since".spec_bytes(), "".spec_bytes())
    } else if i == 44 {
        ("last-modified".spec_bytes(), "".spec_bytes())
    } else if i == 45 {
        ("link".spec_bytes(), "".spec_bytes())
    } else if i == 46 {
        ("location".spec_bytes(), "".spec_bytes())
    } else if i == 47 {
        ("max-forwards".spec_bytes(), "".spec_bytes())
    } else if i == 48 {
        ("proxy-authenticate".spec_bytes(), "".spec_bytes())
    } else if i == 49 {
        ("proxy-authorization".spec_bytes(), "".spec_bytes())
    } else if i == 50 {
        ("range".spec_bytes(), "".spec_bytes())
    } else if i == 51 {
        ("referer".spec_bytes(), "".spec_bytes())
    } else if i == 52 {
        ("refresh".spec_bytes(), "".spec_bytes())
    } else if i == 53 {
        ("retry-after".spec_bytes(), "".spec_bytes())
    } else if i == 54 {
        ("server".spec_bytes(), "".spec_bytes())
    } else if i == 55 {
        ("set-cookie".spec_bytes(), "".spec_bytes())
    } else if i == 56 {
        ("strict-transport-security".spec_bytes(), "".spec_bytes())
    } else if i == 57 {
        ("transfer-encoding".spec_bytes(), "".spec_bytes())
    } else if i == 58 {
        ("user-agent".spec_bytes(), "".spec_bytes())
    } else if i == 59 {
        ("vary".spec_bytes(), "".spec_bytes())
    } else if i == 60 {
        ("via".spec_bytes(), "".spec_bytes())
    } else if i == 61 {
        ("www-authenticate".spec_bytes(), "".spec_bytes())
    } else {
        (Seq::empty(), Seq::empty())
    }
}

/// Entry `i` of the fixed static table of RFC 7541 Appendix A,
/// indices 1 to 61.
pub fn static_entry(i: usize) -> (r: (Vec<u8>, Vec<u8>))
    requires
        1 <= i <= 61,
    ensures
        (r.0@, r.1@) == spec_static_entry(i as int),
{
    proof {
        reveal(spec_static_entry);
    }
    match i {
        1 => (":authority".as_bytes_vec(), "".as_bytes_vec()),
        2 => (":method".as_bytes_vec(), "GET".as_bytes_vec()),
        3 => (":method".as_bytes_vec(), "POST".as_bytes_vec()),
        4 => (":path".as_bytes_vec(), "/".as_bytes_vec()),
        5 => (":path".as_bytes_vec(), "/index.html".as_bytes_vec()),
        6 => (":scheme".as_bytes_vec(), "http".as_bytes_vec()),
        7 => (":scheme".as_bytes_vec(), "https".as_bytes_vec()),
        8 => (":status".as_bytes_vec(), "200".as_bytes_vec()),
        9 => (":status".as_bytes_vec(), "204".as_bytes_vec()),
        10 => (":status".as_bytes_vec(), "206".as_bytes_vec()),
        11 => (":status".as_bytes_vec(), "304".as_bytes_vec()),
        12 => (":status".as_bytes_vec(), "400".as_bytes_vec()),
        13 => (":status".as_bytes_vec(), "404".as_bytes_vec()),
        14 => (":status".as_bytes_vec(), "500".as_bytes_vec()),
        15 => ("accept-charset".as_bytes_vec(), "".as_bytes_vec()),
        16 => ("accept-encoding".as_bytes_vec(), "gzip, deflate".as_bytes_vec()),
        17 => ("accept-language".as_bytes_vec(), "".as_bytes_vec()),
        18 => ("accept-ranges".as_bytes_vec(), "".as_bytes_vec()),
        19 => ("accept".as_bytes_vec(), "".as_bytes_vec()),
        20 => ("access-control-allow-origin".as_bytes_vec(), "".as_bytes_vec()),
        21 => ("age".as_bytes_vec(), "".as_bytes_vec()),
        22 => ("allow".as_bytes_vec(), "".as_bytes_vec()),
        23 => ("authorization".as_bytes_vec(), "".as_bytes_vec()),
        24 => ("cache-control".as_bytes_vec(), "".as_bytes_vec()),
        25 => ("content-disposition".as_bytes_vec(), "".as_bytes_vec()),
        26 => ("content-encoding".as_bytes_vec(), "".as_bytes_vec()),
        27 => ("content-language".as_bytes_vec(), "".as_bytes_vec()),
        28 => ("content-length".as_bytes_vec(), "".as_bytes_vec()),
        29 => ("content-location".as_bytes_vec(), "".as_bytes_vec()),
        30 => ("content-range".as_bytes_vec(), "".as_bytes_vec()),
        31 => ("content-type".as_bytes_vec(), "".as_bytes_vec()),
        32 => ("cookie".as_bytes_vec(), "".as_bytes_vec()),
        33 => ("date".as_bytes_vec(), "".as_bytes_vec()),
        34 => ("etag".as_bytes_vec(), "".as_bytes_vec()),
        35 => ("expect".as_bytes_vec(), "".as_bytes_vec()),
        36 => ("expires".as_bytes_vec(), "".as_bytes_vec()),
        37 => ("from".as_bytes_vec(), "".as_bytes_vec()),
        38 => ("host".as_bytes_vec(), "".as_bytes_vec()),
        39 => ("if-match".as_bytes_vec(), "".as_bytes_vec()),
        40 => ("if-modified-since".as_bytes_vec(), "".as_bytes_vec()),
        41 => ("if-none-match".as_bytes_vec(), "".as_bytes_vec()),
        42 => ("if-range".as_bytes_vec(), "".as_bytes_vec()),
        43 => ("if-unmodified-since".as_bytes_vec(), "".as_bytes_vec()),
        44 => ("last-modified".as_bytes_vec(), "".as_bytes_vec()),
        45 => ("link".as_bytes_vec(), "".as_bytes_vec()),
        46 => ("location".as_bytes_vec(), "".as_bytes_vec()),
        47 => ("max-forwards".as_bytes_vec(), "".as_bytes_vec()),
        48 => ("proxy-authenticate".as_bytes_vec(), "".as_bytes_vec()),
        49 => ("proxy-authorization".as_bytes_vec(), "".as_bytes_vec()),
        50 => ("range".as_bytes_vec(), "".as_bytes_vec()),
        51 => ("referer".as_bytes_vec(), "".as_bytes_vec()),
        52 => ("refresh".as_bytes_vec(), "".as_bytes_vec()),
        53 => ("retry-after".as_bytes_vec(), "".as_bytes_vec()),
        54 => ("server".as_bytes_vec(), "".as_bytes_vec()),
        55 => ("set-cookie".as_bytes_vec(), "".as_bytes_vec()),
        56 => ("strict-transport-security".as_bytes_vec(), "".as_bytes_vec()),
        57 => ("transfer-encoding".as_bytes_vec(), "".as_bytes_vec()),
        58 => ("user-agent".as_bytes_vec(), "".as_bytes_vec()),
        59 => ("vary".as_bytes_vec(), "".as_bytes_vec()),
        60 => ("via".as_bytes_vec(), "".as_bytes_vec()),
        _ => ("www-authenticate".as_bytes_vec(), "".as_bytes_vec()),
    }
}

// --- the dynamic table --------------------------------------------------------

/// The octet budget an entry charges: name length plus value length plus a
/// fixed overhead of 32.
pub open spec fn spec_entry_size(e: (Seq<u8>, Seq<u8>)) -> int {
    e.0.len() + e.1.len() + 32int
}

/// The octets a dynamic table occupies.
pub open spec fn spec_table_octets(t: Seq<(Seq<u8>, Seq<u8>)>) -> int
    decreases t.len(),
{
    if t.len() == 0 {
        0
    } else {
        spec_entry_size(t[0]) + spec_table_octets(t.skip(1))
    }
}

/// Evicts entries from the tail (the oldest end) until the table fits the
/// budget `max`.
pub open spec fn spec_evict(t: Seq<(Seq<u8>, Seq<u8>)>, max: int) -> Seq<(Seq<u8>, Seq<u8>)>
    decreases t.len(),
{
    if spec_table_octets(t) <= max {
        t
    } else if t.len() == 0 {
        t
    } else {
        spec_evict(t.drop_last(), max)
    }
}

/// Inserting an entry at the head: the new entry followed by the old table,
/// evicted down to the budget. An entry larger than the whole budget leaves
/// the table empty.
pub open spec fn spec_table_push(
    t: Seq<(Seq<u8>, Seq<u8>)>,
    name: Seq<u8>,
    value: Seq<u8>,
    max: int,
) -> Seq<(Seq<u8>, Seq<u8>)> {
    spec_evict(seq![(name, value)] + t, max)
}

/// A lookup: indices 1 to 61 hit the static table, higher indices the
/// dynamic table newest-first, anything else is out of range.
pub open spec fn spec_table_get(t: Seq<(Seq<u8>, Seq<u8>)>, i: int) -> Option<(Seq<u8>, Seq<u8>)> {
    if 1 <= i <= 61 {
        Some(spec_static_entry(i))
    } else if 62 <= i < 62 + t.len() {
        Some(t[i - 62])
    } else {
        None
    }
}

/// A table occupies no negative number of octets.
pub proof fn lemma_table_octets_nonneg(t: Seq<(Seq<u8>, Seq<u8>)>)
    ensures
        spec_table_octets(t) >= 0,
    decreases t.len(),
{
    if t.len() > 0 {
        lemma_table_octets_nonneg(t.skip(1));
    }
}

/// The octets of a table split off its last entry.
pub proof fn lemma_table_octets_drop_last(t: Seq<(Seq<u8>, Seq<u8>)>)
    requires
        t.len() > 0,
    ensures
        spec_table_octets(t) == spec_table_octets(t.drop_last()) + spec_entry_size(t.last()),
    decreases t.len(),
{
    if t.len() == 1 {
        assert(t.drop_last() =~= Seq::empty());
        assert(t.skip(1) =~= Seq::empty());
    } else {
        lemma_table_octets_drop_last(t.skip(1));
        assert(t.skip(1).drop_last() =~= t.drop_last().skip(1));
        assert(t.skip(1).last() == t.last());
        assert(t.drop_last()[0] == t[0]);
    }
}

/// Evicting around a head entry that fits the budget: the head stays and
/// the tail is evicted against what the head leaves over.
pub proof fn lemma_evict_head(e: (Seq<u8>, Seq<u8>), t: Seq<(Seq<u8>, Seq<u8>)>, max: int)
    requires
        spec_entry_size(e) <= max,
    ensures
        spec_evict(seq![e] + t, max) == seq![e] + spec_evict(t, max - spec_entry_size(e)),
    decreases t.len(),
{
    let whole = seq![e] + t;
    assert(whole.skip(1) =~= t);
    if spec_table_octets(t) <= max - spec_entry_size(e) {
        assert(spec_table_octets(whole) <= max);
    } else {
        assert(spec_table_octets(whole) > max);
        lemma_table_octets_nonneg(t);
        assert(t.len() > 0);
        assert(whole.drop_last() =~= seq![e] + t.drop_last());
        lemma_evict_head(e, t.drop_last(), max);
    }
}

/// A head entry larger than the whole budget clears the table.
pub proof fn lemma_evict_oversize(e: (Seq<u8>, Seq<u8>), t: Seq<(Seq<u8>, Seq<u8>)>, max: int)
    requires
        spec_entry_size(e) > max,
    ensures
        spec_evict(seq![e] + t, max) =~= Seq::<(Seq<u8>, Seq<u8>)>::empty(),
    decreases t.len(),
{
    let whole = seq![e] + t;
    assert(whole.skip(1) =~= t);
    assert(whole[0] == e);
    assert(spec_table_octets(whole) == spec_entry_size(e) + spec_table_octets(t));
    lemma_table_octets_nonneg(t);
    assert(spec_table_octets(whole) > max);
    if t.len() == 0 {
        assert(whole.drop_last() =~= Seq::<(Seq<u8>, Seq<u8>)>::empty());
        assert(spec_table_octets(Seq::<(Seq<u8>, Seq<u8>)>::empty()) == 0);
        assert(spec_evict(Seq::<(Seq<u8>, Seq<u8>)>::empty(), max) =~= Seq::<
            (Seq<u8>, Seq<u8>),
        >::empty());
    } else {
        assert(whole.drop_last() =~= seq![e] + t.drop_last());
        lemma_evict_oversize(e, t.drop_last(), max);
    }
}

/// One entry of the dynamic table, carrying its charged size.
#[derive(Debug, Clone)]
pub struct TableEntry {
    pub size: usize,
    pub name: Vec<u8>,
    pub value: Vec<u8>,
}

impl TableEntry {
    /// The size field is the charged size of the entry.
    pub open spec fn wf(self) -> bool {
        self.size == self.name@.len() + self.value@.len() + 32
    }

    /// The name and value octets.
    pub open spec fn view(self) -> (Seq<u8>, Seq<u8>) {
        (self.name@, self.value@)
    }

    pub fn new(name: Vec<u8>, value: Vec<u8>) -> (r: TableEntry)
        requires
            name.len() + value.len() + 32 <= usize::MAX,
        ensures
            r.wf(),
            r@ == (name@, value@),
    {
        TableEntry { size: name.len() + value.len() + 32, name, value }
    }
}

/// The dynamic indexing table: a budget in octets and the entries, newest
/// first, always within budget.
#[derive(Debug, Clone)]
pub struct Table {
    pub max_size: usize,
    pub current_size: usize,
    pub table: Vec<TableEntry>,
}

impl Table {
    /// The entries as name and value octets, newest first.
    pub open spec fn view(self) -> Seq<(Seq<u8>, Seq<u8>)> {
        Seq::new(self.table@.len(), |i: int| (self.table@[i].name@, self.table@[i].value@))
    }

    /// Every entry carries its true size, the total is the sum, and the
    /// total fits the budget.
    pub open spec fn wf(self) -> bool {
        &&& forall|i: int| 0 <= i < self.table@.len() ==> (#[trigger] self.table@[i]).wf()
        &&& self.current_size == spec_table_octets(self@)
        &&& spec_table_octets(self@) <= self.max_size
    }

    pub fn new(max_size: usize) -> (r: Table)
        ensures
            r.wf(),
            r@ =~= Seq::<(Seq<u8>, Seq<u8>)>::empty(),
            r.max_size == max_size,
    {
        let r = Table { max_size, current_size: 0, table: Vec::new() };
        assert(r@ =~= Seq::<(Seq<u8>, Seq<u8>)>::empty());
        r
    }

    /// Looks `index` up across the static and dynamic tables.
    pub fn get(&self, index: usize) -> (r: Option<(Vec<u8>, Vec<u8>)>)
        ensures
            ({
                let spec = spec_table_get(self@, index as int);
                match r {
                    Some((name, value)) => spec == Some((name@, value@)),
                    None => spec is None,
                }
            }),
    {
        if 1 <= index && index <= 61 {
            Some(static_entry(index))
        } else if 62 <= index && index - 62 < self.table.len() {
            let e = &self.table[index - 62];
            Some((e.name.clone(), e.value.clone()))
        } else {
            None
        }
    }

    /// Evicts oldest entries until the table fits `budget`.
    fn evict_to(&mut self, budget: usize)
        requires
            old(self).current_size == spec_table_octets(old(self)@),
            forall|i: int|
                0 <= i < old(self).table@.len() ==> (#[trigger] old(self).table@[i]).wf(),
        ensures
            final(self).table@.len() <= old(self).table@.len(),
            final(self)@ == spec_evict(old(self)@, budget as int),
            final(self).current_size == spec_table_octets(final(self)@),
            spec_table_octets(final(self)@) <= budget,
            forall|i: int|
                0 <= i < final(self).table@.len() ==> (#[trigger] final(self).table@[i]).wf(),
            final(self).max_size == old(self).max_size,
    {
        while self.current_size > budget
            invariant
                self.current_size == spec_table_octets(self@),
                forall|i: int| 0 <= i < self.table@.len() ==> (#[trigger] self.table@[i]).wf(),
                spec_evict(old(self)@, budget as int) == spec_evict(self@, budget as int),
                self.table@.len() <= old(self).table@.len(),
                self.max_size == old(self).max_size,
            decreases self.table@.len(),
        {
            proof {
                if self.table@.len() == 0 {
                    assert(self@ =~= Seq::<(Seq<u8>, Seq<u8>)>::empty());
                }
                lemma_table_octets_drop_last(self@);
                lemma_table_octets_nonneg(self@.drop_last());
            }
            let ghost before = self@;
            let popped = self.table.pop().unwrap();
            assert(self@ =~= before.drop_last());
            assert(popped.wf());
            assert((popped.name@, popped.value@) == before.last());
            assert(popped.size == spec_entry_size(before.last()));
            self.current_size = self.current_size - popped.size;
        }
    }

    /// Inserts a field at the head, evicting from the tail to stay within
    /// budget; a field larger than the whole budget clears the table.
    pub fn push(&mut self, name: Vec<u8>, value: Vec<u8>)
        requires
            old(self).wf(),
        ensures
            final(self).wf(),
            final(self)@ == spec_table_push(old(self)@, name@, value@, old(self).max_size as int),
            final(self).max_size == old(self).max_size,
    {
        let oversize = self.max_size < 32 || name.len() > self.max_size - 32 || value.len()
            > self.max_size - 32 - name.len();
        if oversize {
            proof {
                lemma_evict_oversize((name@, value@), self@, self.max_size as int);
            }
            self.table = Vec::new();
            self.current_size = 0;
            assert(self@ =~= Seq::<(Seq<u8>, Seq<u8>)>::empty());
        } else {
            let entry = TableEntry::new(name, value);
            let ghost e = (entry.name@, entry.value@);
            proof {
                lemma_evict_head(e, self@, self.max_size as int);
                lemma_table_octets_nonneg(spec_evict(self@, self.max_size - entry.size));
            }
            let entry_size = entry.size;
            let budget = self.max_size - entry_size;
            self.evict_to(budget);
            let ghost evicted = self@;
            assert(spec_table_octets(evicted) <= budget);
            self.table.insert(0, entry);
            assert(self@ =~= seq![e] + evicted);
            self.current_size = self.current_size + entry_size;
            assert(self@.skip(1) =~= evicted);
        }
    }

    /// Changes the budget, evicting whatever no longer fits.
    pub fn resize(&mut self, size: usize)
        requires
            old(self).wf(),
        ensures
            final(self).wf(),
            final(self)@ == spec_evict(old(self)@, size as int),
            final(self).max_size == size,
    {
        self.max_size = size;
        self.evict_to(size);
    }
}

// --- the header-block decoder -------------------------------------------------

/// A header list as name and value octets.
pub open spec fn spec_headers_view(v: Seq<(Vec<u8>, Vec<u8>)>) -> Seq<(Seq<u8>, Seq<u8>)> {
    Seq::new(v.len(), |i: int| (v[i].0@, v[i].1@))
}

/// Decodes the name and value of a literal field representation whose
/// name-index prefix is `prefix` bits wide: a zero index is followed by a
/// literal name string, a non-zero index names a table entry; the value is
/// always a string. Returns the field and the octets consumed.
pub open spec fn spec_dec_field(b: Seq<u8>, t: Seq<(Seq<u8>, Seq<u8>)>, prefix: nat) -> Result<
    (Seq<u8>, Seq<u8>, int),
    HpackError,
> {
    match spec_dec_int(b, prefix) {
        Ok((idx, n)) => {
            if idx > u32::MAX {
                Err(HpackError::InvalidIntegerOverflow)
            } else if idx == 0 {
                match spec_dec_str(b.skip(n)) {
                    Ok((name, n2)) => {
                        match spec_dec_str(b.skip(n + n2)) {
                            Ok((value, n3)) => Ok((name, value, n + n2 + n3)),
                            Err(e) => Err(e),
                        }
                    },
                    Err(e) => Err(e),
                }
            } else {
                match spec_table_get(t, idx as int) {
                    Some(e) => {
                        match spec_dec_str(b.skip(n)) {
                            Ok((value, n2)) => Ok((e.0, value, n + n2)),
                            Err(er) => Err(er),
                        }
                    },
                    None => Err(HpackError::IndexOutOfRange),
                }
            }
        },
        Err(e) => Err(e),
    }
}

/// A decoded field occupies at least one octet and no more than the buffer.
pub proof fn lemma_dec_field_bounds(b: Seq<u8>, t: Seq<(Seq<u8>, Seq<u8>)>, prefix: nat)
    ensures
        spec_dec_field(b, t, prefix) matches Ok((name, value, n)) ==> 1 <= n <= b.len(),
{
    lemma_dec_int_bounds(b, prefix);
    match spec_dec_int(b, prefix) {
        Ok((idx, n)) => {
            lemma_dec_str_bounds(b.skip(n));
            match spec_dec_str(b.skip(n)) {
                Ok((s, n2)) => {
                    lemma_dec_str_bounds(b.skip(n + n2));
                },
                Err(_) => {},
            }
        },
        Err(_) => {},
    }
}

/// Decodes a whole header block against dynamic table `t` with budget
/// `max`: the header list in order, and the table and budget the block
/// leaves behind. `limit` is the cap the decoder signaled in SETTINGS; a
/// size update above it, or past the head of the block, is an error.
pub open spec fn spec_dec_block(
    b: Seq<u8>,
    t: Seq<(Seq<u8>, Seq<u8>)>,
    max: int,
    limit: int,
    at_head: bool,
) -> Result<(Seq<(Seq<u8>, Seq<u8>)>, Seq<(Seq<u8>, Seq<u8>)>, int), HpackError>
    decreases b.len(),
    via spec_dec_block_decreases
{
    if b.len() == 0 {
        Ok((Seq::empty(), t, max))
    } else if b[0] >= 0x80 {
        // indexed field
        match spec_dec_int(b, 7) {
            Ok((idx, n)) => {
                if idx > u32::MAX {
                    Err(HpackError::InvalidIntegerOverflow)
                } else {
                    match spec_table_get(t, idx as int) {
                        Some(e) => {
                            match spec_dec_block(b.skip(n), t, max, limit, false) {
                                Ok((hs, t2, m2)) => Ok((seq![e] + hs, t2, m2)),
                                Err(er) => Err(er),
                            }
                        },
                        None => Err(HpackError::IndexOutOfRange),
                    }
                }
            },
            Err(e) => Err(e),
        }
    } else if b[0] >= 0x40 {
        // literal field with incremental indexing
        match spec_dec_field(b, t, 6) {
            Ok((name, value, n)) => {
                match spec_dec_block(
                    b.skip(n),
                    spec_table_push(t, name, value, max),
                    max,
                    limit,
                    false,
                ) {
                    Ok((hs, t2, m2)) => Ok((seq![(name, value)] + hs, t2, m2)),
                    Err(er) => Err(er),
                }
            },
            Err(e) => Err(e),
        }
    } else if b[0] >= 0x20 {
        // dynamic table size update
        if !at_head {
            Err(HpackError::ResizeExceedsLimit)
        } else {
            match spec_dec_int(b, 5) {
                Ok((sz, n)) => {
                    if sz > u32::MAX {
                        Err(HpackError::InvalidIntegerOverflow)
                    } else if sz > limit {
                        Err(HpackError::ResizeExceedsLimit)
                    } else {
                        spec_dec_block(b.skip(n), spec_evict(t, sz as int), sz as int, limit, true)
                    }
                },
                Err(e) => Err(e),
            }
        }
    } else {
        // literal field without indexing, never-indexed included
        match spec_dec_field(b, t, 4) {
            Ok((name, value, n)) => {
                match spec_dec_block(b.skip(n), t, max, limit, false) {
                    Ok((hs, t2, m2)) => Ok((seq![(name, value)] + hs, t2, m2)),
                    Err(er) => Err(er),
                }
            },
            Err(e) => Err(e),
        }
    }
}

#[via_fn]
proof fn spec_dec_block_decreases(
    b: Seq<u8>,
    t: Seq<(Seq<u8>, Seq<u8>)>,
    max: int,
    limit: int,
    at_head: bool,
) {
    lemma_dec_int_bounds(b, 7);
    lemma_dec_int_bounds(b, 5);
    lemma_dec_field_bounds(b, t, 6);
    lemma_dec_field_bounds(b, t, 4);
}

/// The HPACK decoder: the dynamic table and the size cap this endpoint
/// signaled in SETTINGS_HEADER_TABLE_SIZE.
#[derive(Debug, Clone)]
pub struct Decoder {
    pub table: Table,
    pub limit: usize,
}

impl Decoder {
    /// The table is consistent and its budget never exceeds the signaled
    /// cap.
    pub open spec fn wf(self) -> bool {
        &&& self.table.wf()
        &&& self.table.max_size <= self.limit
    }

    pub fn with_size(dynamic_table_size: usize) -> (r: Decoder)
        ensures
            r.wf(),
            r.table@ =~= Seq::<(Seq<u8>, Seq<u8>)>::empty(),
            r.table.max_size == dynamic_table_size,
            r.limit == dynamic_table_size,
    {
        Decoder { table: Table::new(dynamic_table_size), limit: dynamic_table_size }
    }

    /// Decodes one field representation at `pos` and whatever follows it,
    /// appending the decoded fields to `out`.
    fn decode_at(
        &mut self,
        data: &Vec<u8>,
        pos: usize,
        at_head: bool,
        out: &mut Vec<(Vec<u8>, Vec<u8>)>,
    ) -> (r: Result<(), HpackError>)
        requires
            old(self).wf(),
            pos <= data.len(),
        ensures
            final(self).wf(),
            final(self).limit == old(self).limit,
            ({
                let spec = spec_dec_block(
                    data@.skip(pos as int),
                    old(self).table@,
                    old(self).table.max_size as int,
                    old(self).limit as int,
                    at_head,
                );
                match r {
                    Ok(()) => {
                        &&& (spec matches Ok((hs, t2, m2)) && spec_headers_view(final(out)@)
                            == spec_headers_view(old(out)@) + hs && final(self).table@ == t2
                            && final(self).table.max_size as int == m2)
                    },
                    Err(e) => spec matches Err(se) && se == e,
                }
            }),
        decreases data.len() - pos, 1int,
    {
        let ghost b = data@.skip(pos as int);
        if pos == data.len() {
            assert(b.len() == 0);
            assert(spec_headers_view(out@) + Seq::<(Seq<u8>, Seq<u8>)>::empty()
                =~= spec_headers_view(out@));
            return Ok(());
        }
        let b0 = data[pos];
        assert(b[0] == b0);
        if b0 >= 0x80 {
            self.dec_indexed(data, pos, at_head, out)
        } else if b0 >= 0x40 {
            self.dec_literal_indexing(data, pos, at_head, out)
        } else if b0 >= 0x20 {
            self.dec_resize(data, pos, at_head, out)
        } else {
            self.dec_literal_plain(data, pos, at_head, out)
        }
    }

    /// An indexed field: emit the table entry the index names.
    #[verifier::rlimit(100)]
    #[verifier::spinoff_prover]
    fn dec_indexed(
        &mut self,
        data: &Vec<u8>,
        pos: usize,
        at_head: bool,
        out: &mut Vec<(Vec<u8>, Vec<u8>)>,
    ) -> (r: Result<(), HpackError>)
        requires
            old(self).wf(),
            pos < data.len(),
            data@[pos as int] >= 0x80,
        ensures
            final(self).wf(),
            final(self).limit == old(self).limit,
            ({
                let spec = spec_dec_block(
                    data@.skip(pos as int),
                    old(self).table@,
                    old(self).table.max_size as int,
                    old(self).limit as int,
                    at_head,
                );
                match r {
                    Ok(()) => {
                        &&& (spec matches Ok((hs, t2, m2)) && spec_headers_view(final(out)@)
                            == spec_headers_view(old(out)@) + hs && final(self).table@ == t2
                            && final(self).table.max_size as int == m2)
                    },
                    Err(e) => spec matches Err(se) && se == e,
                }
            }),
        decreases data.len() - pos, 0int,
    {
        let ghost b = data@.skip(pos as int);
        assert(b[0] == data@[pos as int]);
        match decode_integer(data, pos, 7) {
            Err(e) => Err(e),
            Ok((idx, next)) => {
                assert(b.skip(next - pos) =~= data@.skip(next as int));
                match self.table.get(idx as usize) {
                    None => Err(HpackError::IndexOutOfRange),
                    Some((name, value)) => {
                        let ghost before = spec_headers_view(out@);
                        let ghost e = (name@, value@);
                        out.push((name, value));
                        assert(spec_headers_view(out@) =~= before + seq![e]);
                        let result = self.decode_at(data, next, false, out);
                        proof {
                            if result is Ok {
                                let rest = spec_dec_block(
                                    data@.skip(next as int),
                                    old(self).table@,
                                    old(self).table.max_size as int,
                                    old(self).limit as int,
                                    false,
                                );
                                assert((before + seq![e]) + rest->Ok_0.0 =~= before + (seq![e]
                                    + rest->Ok_0.0));
                            }
                        }
                        result
                    },
                }
            },
        }
    }

    /// A literal field with incremental indexing: emit it and insert it
    /// into the dynamic table.
    #[verifier::rlimit(100)]
    #[verifier::spinoff_prover]
    fn dec_literal_indexing(
        &mut self,
        data: &Vec<u8>,
        pos: usize,
        at_head: bool,
        out: &mut Vec<(Vec<u8>, Vec<u8>)>,
    ) -> (r: Result<(), HpackError>)
        requires
            old(self).wf(),
            pos < data.len(),
            0x40 <= data@[pos as int] < 0x80,
        ensures
            final(self).wf(),
            final(self).limit == old(self).limit,
            ({
                let spec = spec_dec_block(
                    data@.skip(pos as int),
                    old(self).table@,
                    old(self).table.max_size as int,
                    old(self).limit as int,
                    at_head,
                );
                match r {
                    Ok(()) => {
                        &&& (spec matches Ok((hs, t2, m2)) && spec_headers_view(final(out)@)
                            == spec_headers_view(old(out)@) + hs && final(self).table@ == t2
                            && final(self).table.max_size as int == m2)
                    },
                    Err(e) => spec matches Err(se) && se == e,
                }
            }),
        decreases data.len() - pos, 0int,
    {
        let ghost b = data@.skip(pos as int);
        assert(b[0] == data@[pos as int]);
        match Self::decode_field(&self.table, data, pos, 6) {
            Err(e) => Err(e),
            Ok((name, value, next)) => {
                assert(b.skip(next - pos) =~= data@.skip(next as int));
                let ghost e = (name@, value@);
                let name2 = crate::frame::subvec(&name, 0, name.len());
                let value2 = crate::frame::subvec(&value, 0, value.len());
                assert(name2@ =~= name@ && value2@ =~= value@);
                self.table.push(name2, value2);
                let ghost before = spec_headers_view(out@);
                out.push((name, value));
                assert(spec_headers_view(out@) =~= before + seq![e]);
                let result = self.decode_at(data, next, false, out);
                proof {
                    if result is Ok {
                        let rest = spec_dec_block(
                            data@.skip(next as int),
                            spec_table_push(
                                old(self).table@,
                                e.0,
                                e.1,
                                old(self).table.max_size as int,
                            ),
                            old(self).table.max_size as int,
                            old(self).limit as int,
                            false,
                        );
                        assert((before + seq![e]) + rest->Ok_0.0 =~= before + (seq![e]
                            + rest->Ok_0.0));
                    }
                }
                result
            },
        }
    }

    /// A dynamic-table size update: legal only at the head of the block and
    /// up to the signaled cap.
    #[verifier::rlimit(100)]
    #[verifier::spinoff_prover]
    fn dec_resize(
        &mut self,
        data: &Vec<u8>,
        pos: usize,
        at_head: bool,
        out: &mut Vec<(Vec<u8>, Vec<u8>)>,
    ) -> (r: Result<(), HpackError>)
        requires
            old(self).wf(),
            pos < data.len(),
            0x20 <= data@[pos as int] < 0x40,
        ensures
            final(self).wf(),
            final(self).limit == old(self).limit,
            ({
                let spec = spec_dec_block(
                    data@.skip(pos as int),
                    old(self).table@,
                    old(self).table.max_size as int,
                    old(self).limit as int,
                    at_head,
                );
                match r {
                    Ok(()) => {
                        &&& (spec matches Ok((hs, t2, m2)) && spec_headers_view(final(out)@)
                            == spec_headers_view(old(out)@) + hs && final(self).table@ == t2
                            && final(self).table.max_size as int == m2)
                    },
                    Err(e) => spec matches Err(se) && se == e,
                }
            }),
        decreases data.len() - pos, 0int,
    {
        let ghost b = data@.skip(pos as int);
        assert(b[0] == data@[pos as int]);
        if !at_head {
            return Err(HpackError::ResizeExceedsLimit);
        }
        match decode_integer(data, pos, 5) {
            Err(e) => Err(e),
            Ok((sz, next)) => {
                assert(b.skip(next - pos) =~= data@.skip(next as int));
                if sz as usize > self.limit {
                    return Err(HpackError::ResizeExceedsLimit);
                }
                self.table.resize(sz as usize);
                self.decode_at(data, next, true, out)
            },
        }
    }

    /// A literal field without indexing (never-indexed included): emit it
    /// and leave the table alone.
    #[verifier::rlimit(100)]
    #[verifier::spinoff_prover]
    fn dec_literal_plain(
        &mut self,
        data: &Vec<u8>,
        pos: usize,
        at_head: bool,
        out: &mut Vec<(Vec<u8>, Vec<u8>)>,
    ) -> (r: Result<(), HpackError>)
        requires
            old(self).wf(),
            pos < data.len(),
            data@[pos as int] < 0x20,
        ensures
            final(self).wf(),
            final(self).limit == old(self).limit,
            ({
                let spec = spec_dec_block(
                    data@.skip(pos as int),
                    old(self).table@,
                    old(self).table.max_size as int,
                    old(self).limit as int,
                    at_head,
                );
                match r {
                    Ok(()) => {
                        &&& (spec matches Ok((hs, t2, m2)) && spec_headers_view(final(out)@)
                            == spec_headers_view(old(out)@) + hs && final(self).table@ == t2
                            && final(self).table.max_size as int == m2)
                    },
                    Err(e) => spec matches Err(se) && se == e,
                }
            }),
        decreases data.len() - pos, 0int,
    {
        let ghost b = data@.skip(pos as int);
        assert(b[0] == data@[pos as int]);
        match Self::decode_field(&self.table, data, pos, 4) {
            Err(e) => Err(e),
            Ok((name, value, next)) => {
                assert(b.skip(next - pos) =~= data@.skip(next as int));
                let ghost e = (name@, value@);
                let ghost before = spec_headers_view(out@);
                out.push((name, value));
                assert(spec_headers_view(out@) =~= before + seq![e]);
                let result = self.decode_at(data, next, false, out);
                proof {
                    if result is Ok {
                        let rest = spec_dec_block(
                            data@.skip(next as int),
                            old(self).table@,
                            old(self).table.max_size as int,
                            old(self).limit as int,
                            false,
                        );
                        assert((before + seq![e]) + rest->Ok_0.0 =~= before + (seq![e]
                            + rest->Ok_0.0));
                    }
                }
                result
            },
        }
    }

    /// Decodes the name, value and extent of a literal field representation.
    fn decode_field(table: &Table, data: &Vec<u8>, pos: usize, prefix: u8) -> (r: Result<
        (Vec<u8>, Vec<u8>, usize),
        HpackError,
    >)
        requires
            1 <= prefix <= 7,
            pos <= data.len(),
        ensures
            ({
                let spec = spec_dec_field(data@.skip(pos as int), table@, prefix as nat);
                match r {
                    Ok((name, value, end)) => {
                        &&& (spec matches Ok((sn, sv, sc)) && sn == name@ && sv == value@ && end
                            == pos + sc)
                        &&& pos < end <= data.len()
                    },
                    Err(e) => spec == Err::<(Seq<u8>, Seq<u8>, int), HpackError>(e),
                }
            }),
    {
        let ghost b = data@.skip(pos as int);
        match decode_integer(data, pos, prefix) {
            Err(e) => Err(e),
            Ok((idx, next)) => {
                assert(b.skip(next - pos) =~= data@.skip(next as int));
                if idx == 0 {
                    match decode_string(data, next) {
                        Err(e) => Err(e),
                        Ok((name, n2_end)) => {
                            assert(b.skip(n2_end - pos) =~= data@.skip(n2_end as int));
                            match decode_string(data, n2_end) {
                                Err(e) => Err(e),
                                Ok((value, n3_end)) => Ok((name, value, n3_end)),
                            }
                        },
                    }
                } else {
                    match table.get(idx as usize) {
                        None => Err(HpackError::IndexOutOfRange),
                        Some((name, _value_of_entry)) => {
                            match decode_string(data, next) {
                                Err(e) => Err(e),
                                Ok((value, n2_end)) => Ok((name, value, n2_end)),
                            }
                        },
                    }
                }
            },
        }
    }

    /// Decodes a whole header block into an ordered header list, updating
    /// the dynamic table as the block directs. Every failure is fatal to
    /// the connection as a COMPRESSION_ERROR; in particular a size update
    /// above the signaled cap, or past the head of the block, fails with
    /// `ResizeExceedsLimit`.
    pub fn decode(&mut self, data: &Vec<u8>) -> (r: Result<Vec<(Vec<u8>, Vec<u8>)>, HpackError>)
        requires
            old(self).wf(),
        ensures
            final(self).wf(),
            final(self).limit == old(self).limit,
            ({
                let spec = spec_dec_block(
                    data@,
                    old(self).table@,
                    old(self).table.max_size as int,
                    old(self).limit as int,
                    true,
                );
                match r {
                    Ok(out) => {
                        &&& (spec matches Ok((hs, t2, m2)) && spec_headers_view(out@) == hs
                            && final(self).table@ == t2 && final(self).table.max_size as int == m2)
                    },
                    Err(e) => spec matches Err(se) && se == e,
                }
            }),
    {
        let mut out: Vec<(Vec<u8>, Vec<u8>)> = Vec::new();
        assert(data@.skip(0) =~= data@);
        assert(spec_headers_view(out@) =~= Seq::<(Seq<u8>, Seq<u8>)>::empty());
        match self.decode_at(data, 0, true, &mut out) {
            Ok(()) => {
                proof {
                    let spec = spec_dec_block(
                        data@,
                        old(self).table@,
                        old(self).table.max_size as int,
                        old(self).limit as int,
                        true,
                    );
                    if spec is Ok {
                        assert(Seq::<(Seq<u8>, Seq<u8>)>::empty() + spec->Ok_0.0 =~= spec->Ok_0.0);
                    }
                }
                Ok(out)
            },
            Err(e) => Err(e),
        }
    }
}

// --- the header-block encoder -------------------------------------------------

/// The octets of one header field as a literal without indexing: a zero
/// name index under the four-bit prefix, then the name and value strings.
pub open spec fn spec_enc_literal(name: Seq<u8>, value: Seq<u8>) -> Seq<u8> {
    spec_enc_int(0, 4, 0) + spec_enc_str(name) + spec_enc_str(value)
}

/// The octets of a whole header list, each field a literal without
/// indexing.
pub open spec fn spec_enc_block(hs: Seq<(Seq<u8>, Seq<u8>)>) -> Seq<u8>
    decreases hs.len(),
{
    if hs.len() == 0 {
        Seq::empty()
    } else {
        spec_enc_literal(hs[0].0, hs[0].1) + spec_enc_block(hs.skip(1))
    }
}

/// The HPACK encoder. It keeps a dynamic table for protocol symmetry but
/// emits every field as a literal without indexing, which is conforming
/// and decodes back to the same list on any peer.
#[derive(Debug, Clone)]
pub struct Encoder {
    pub table: Table,
}

impl Encoder {
    pub fn with_size(dynamic_table_size: usize) -> (r: Encoder)
        ensures
            r.table.wf(),
            r.table@ =~= Seq::<(Seq<u8>, Seq<u8>)>::empty(),
            r.table.max_size == dynamic_table_size,
    {
        Encoder { table: Table::new(dynamic_table_size) }
    }

    /// The integer primitive alone, under a `prefix`-bit prefix with high
    /// bits `hi`.
    pub fn encode_integer(value: u32, prefix: u8, hi: u8) -> (r: Vec<u8>)
        requires
            1 <= prefix <= 7,
            hi as nat % spec_pow2(prefix as nat) == 0,
            hi as nat + spec_pow2(prefix as nat) <= 256,
        ensures
            r@ == spec_enc_int(hi, prefix as nat, value as nat),
    {
        let mut out: Vec<u8> = Vec::new();
        encode_integer_into(&mut out, hi, prefix, value);
        out
    }

    /// Encodes an ordered header list into one header block.
    pub fn encode(&mut self, headers: &Vec<(Vec<u8>, Vec<u8>)>) -> (r: Vec<u8>)
        requires
            forall|i: int|
                0 <= i < headers@.len() ==> (#[trigger] headers@[i]).0@.len() <= u32::MAX
                    && headers@[i].1@.len() <= u32::MAX,
        ensures
            r@ == spec_enc_block(spec_headers_view(headers@)),
    {
        proof {
            lemma_pow2_values();
        }
        let ghost hs = spec_headers_view(headers@);
        let mut out: Vec<u8> = Vec::new();
        let mut i: usize = 0;
        assert(hs.skip(0) =~= hs);
        assert(out@ + spec_enc_block(hs) =~= spec_enc_block(hs));
        while i < headers.len()
            invariant
                i <= headers.len(),
                hs == spec_headers_view(headers@),
                forall|k: int|
                    0 <= k < headers@.len() ==> (#[trigger] headers@[k]).0@.len() <= u32::MAX
                        && headers@[k].1@.len() <= u32::MAX,
                out@ + spec_enc_block(hs.skip(i as int)) == spec_enc_block(hs),
            decreases headers.len() - i,
        {
            proof {
                lemma_pow2_values();
            }
            let ghost tail = hs.skip(i as int);
            assert(tail[0] == hs[i as int]);
            assert(tail.skip(1) =~= hs.skip(i as int + 1));
            let name = &headers[i].0;
            let value = &headers[i].1;
            let ghost before = out@;
            encode_integer_into(&mut out, 0, 4, 0);
            encode_string_into(&mut out, name);
            encode_string_into(&mut out, value);
            assert(out@ =~= before + spec_enc_literal(name@, value@));
            assert(before + (spec_enc_literal(name@, value@) + spec_enc_block(
                hs.skip(i as int + 1),
            )) =~= out@ + spec_enc_block(hs.skip(i as int + 1)));
            i = i + 1;
        }
        assert(spec_enc_block(hs.skip(hs.len() as int)) =~= Seq::<u8>::empty());
        assert(out@ + Seq::<u8>::empty() =~= out@);
        out
    }
}

/// A header block our encoder produces decodes back to the same header
/// list, in order, on any decoder state, and leaves that decoder's dynamic
/// table and budget untouched: the encoder-to-decoder round trip.
/// One literal-without-indexing field decodes back to the field it
/// encodes, consumes exactly its own octets, and leaves the table alone.
#[verifier::spinoff_prover]
proof fn lemma_literal_round_trip(name: Seq<u8>, value: Seq<u8>, rest: Seq<u8>)
    requires
        name.len() <= u32::MAX,
        value.len() <= u32::MAX,
    ensures
        spec_enc_literal(name, value)[0] == 0,
        spec_dec_int(spec_enc_literal(name, value) + rest, 4) == Ok::<(nat, int), HpackError>(
            (0, 1),
        ),
        spec_dec_field(spec_enc_literal(name, value) + rest, Seq::empty(), 4) == Ok::<
            (Seq<u8>, Seq<u8>, int),
            HpackError,
        >((name, value, spec_enc_literal(name, value).len() as int)),
        (spec_enc_literal(name, value) + rest).skip(spec_enc_literal(name, value).len() as int)
            =~= rest,
{
    lemma_pow2_values();
    let b = spec_enc_literal(name, value) + rest;
    assert(spec_enc_int(0, 4, 0) =~= seq![0u8]);
    assert(b =~= seq![0u8] + (spec_enc_str(name) + (spec_enc_str(value) + rest)));
    assert(b[0] == 0);
    lemma_enc_int_round_trip(0, 4, 0, spec_enc_str(name) + (spec_enc_str(value) + rest));
    assert(spec_enc_int(0, 4, 0) + (spec_enc_str(name) + (spec_enc_str(value) + rest)) =~= b);
    assert(spec_dec_int(b, 4) == Ok::<(nat, int), HpackError>((0, 1)));
    assert(b.skip(1) =~= spec_enc_str(name) + (spec_enc_str(value) + rest));
    lemma_enc_str_round_trip(name, spec_enc_str(value) + rest);
    let n2 = spec_enc_str(name).len() as int;
    assert(spec_dec_str(b.skip(1)) == Ok::<(Seq<u8>, int), HpackError>((name, n2)));
    assert(b.skip(1 + n2) =~= spec_enc_str(value) + rest);
    lemma_enc_str_round_trip(value, rest);
    let n3 = spec_enc_str(value).len() as int;
    assert(spec_dec_str(b.skip(1 + n2)) == Ok::<(Seq<u8>, int), HpackError>((value, n3)));
    assert(b.skip(1 + n2 + n3) =~= rest);
}

/// The table a literal field is decoded against plays no part when the
/// name is carried literally.
#[verifier::spinoff_prover]
proof fn lemma_dec_field_table_irrelevant(
    b: Seq<u8>,
    t1: Seq<(Seq<u8>, Seq<u8>)>,
    t2: Seq<(Seq<u8>, Seq<u8>)>,
)
    requires
        spec_dec_int(b, 4) matches Ok((idx, n)) && idx == 0,
    ensures
        spec_dec_field(b, t1, 4) == spec_dec_field(b, t2, 4),
{
}

/// A header block our encoder produces decodes back to the same header
/// list, in order, on any decoder state, and leaves that decoder's dynamic
/// table and budget untouched: the encoder-to-decoder round trip.
#[verifier::rlimit(100)]
#[verifier::spinoff_prover]
pub proof fn lemma_hpack_round_trip(
    hs: Seq<(Seq<u8>, Seq<u8>)>,
    t: Seq<(Seq<u8>, Seq<u8>)>,
    max: int,
    limit: int,
    at_head: bool,
)
    requires
        forall|i: int|
            0 <= i < hs.len() ==> (#[trigger] hs[i]).0.len() <= u32::MAX && hs[i].1.len()
                <= u32::MAX,
    ensures
        spec_dec_block(spec_enc_block(hs), t, max, limit, at_head) == Ok::<
            (Seq<(Seq<u8>, Seq<u8>)>, Seq<(Seq<u8>, Seq<u8>)>, int),
            HpackError,
        >((hs, t, max)),
    decreases hs.len(),
{
    let b = spec_enc_block(hs);
    if hs.len() == 0 {
        assert(b.len() == 0);
        assert(hs =~= Seq::<(Seq<u8>, Seq<u8>)>::empty());
    } else {
        let name = hs[0].0;
        let value = hs[0].1;
        let rest = spec_enc_block(hs.skip(1));
        assert(b =~= spec_enc_literal(name, value) + rest);
        lemma_literal_round_trip(name, value, rest);
        let n = spec_enc_literal(name, value).len() as int;
        assert(b[0] == 0);
        lemma_dec_field_table_irrelevant(b, Seq::empty(), t);
        assert(spec_dec_field(b, t, 4) == Ok::<(Seq<u8>, Seq<u8>, int), HpackError>(
            (name, value, n),
        ));
        assert(b.skip(n) =~= rest);
        assert(forall|i: int|
            0 <= i < hs.skip(1).len() ==> (#[trigger] hs.skip(1)[i]) == hs[i + 1]);
        lemma_hpack_round_trip(hs.skip(1), t, max, limit, false);
        assert(spec_dec_block(b.skip(n), t, max, limit, false) == Ok::<
            (Seq<(Seq<u8>, Seq<u8>)>, Seq<(Seq<u8>, Seq<u8>)>, int),
            HpackError,
        >((hs.skip(1), t, max)));
        assert(b.len() > 0);
        assert(spec_dec_block(b, t, max, limit, at_head) == Ok::<
            (Seq<(Seq<u8>, Seq<u8>)>, Seq<(Seq<u8>, Seq<u8>)>, int),
            HpackError,
        >((seq![(name, value)] + hs.skip(1), t, max)));
        assert(seq![(name, value)] + hs.skip(1) =~~= hs);
        assert(spec_dec_block(b, t, max, limit, at_head) == Ok::<
            (Seq<(Seq<u8>, Seq<u8>)>, Seq<(Seq<u8>, Seq<u8>)>, int),
            HpackError,
        >((hs, t, max)));
    }
}

} // verus!
