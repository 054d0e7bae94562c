//! The response half of the caller-facing surface: ordered headers and a
//! body, with lookup by lowercased name and `:status` parsing.

use vstd::prelude::*;
use vstd::string::StringSliceAdditionalSpecFns;
use vstd::string::StrSliceExecFns;

verus! {

/// Lowercases one ASCII letter octet; anything else passes through.
pub open spec fn spec_lower_byte(b: u8) -> u8 {
    if 0x41 <= b <= 0x5a {
        (b + 0x20) as u8
    } else {
        b
    }
}

/// Lowercases the ASCII letters of a byte string.
pub open spec fn spec_lower(s: Seq<u8>) -> Seq<u8> {
    Seq::new(s.len(), |i: int| spec_lower_byte(s[i]))
}

/// Lowercases the ASCII letters of a byte string.
pub fn lower_bytes(s: &Vec<u8>) -> (r: Vec<u8>)
    ensures
        r@ == spec_lower(s@),
{
    let mut out: Vec<u8> = Vec::new();
    let mut i: usize = 0;
    while i < s.len()
        invariant
            i <= s.len(),
            out@ =~= spec_lower(s@).subrange(0, i as int),
        decreases s.len() - i,
    {
        let b = s[i];
        if 0x41 <= b && b <= 0x5a {
            out.push(b + 0x20);
        } else {
            out.push(b);
        }
        assert(out@ =~= spec_lower(s@).subrange(0, i as int + 1));
        i = i + 1;
    }
    assert(out@ =~= spec_lower(s@));
    out
}

/// The values that the headers hold under `key`, in order.
pub open spec fn spec_header_values(hs: Seq<(Seq<u8>, Seq<u8>)>, key: Seq<u8>) -> Seq<Seq<u8>>
    decreases hs.len(),
{
    if hs.len() == 0 {
        Seq::empty()
    } else if hs[0].0 == key {
        seq![hs[0].1] + spec_header_values(hs.skip(1), key)
    } else {
        spec_header_values(hs.skip(1), key)
    }
}

/// The first value the headers hold under `key`, if any.
pub open spec fn spec_header_lookup(hs: Seq<(Seq<u8>, Seq<u8>)>, key: Seq<u8>) -> Option<Seq<u8>> {
    let vs = spec_header_values(hs, key);
    if vs.len() == 0 {
        None
    } else {
        Some(vs[0])
    }
}

/// Whether a byte is an ASCII decimal digit.
pub open spec fn spec_is_digit(b: u8) -> bool {
    0x30 <= b <= 0x39
}

/// A response completed by the stream machinery: the decoded headers in
/// arrival order (names already lowercase on the wire) and the body octets.
#[derive(Debug, Clone)]
pub struct Response {
    pub headers: Vec<(Vec<u8>, Vec<u8>)>,
    pub body: Vec<u8>,
}

impl Response {
    /// The headers as a sequence of name and value octets.
    pub open spec fn headers_view(self) -> Seq<(Seq<u8>, Seq<u8>)> {
        crate::hpack::spec_headers_view(self.headers@)
    }

    /// The response carries a three-digit `:status` pseudo-header.
    pub open spec fn has_status(self) -> bool {
        match spec_header_lookup(self.headers_view(), ":status".spec_bytes()) {
            Some(v) => v.len() == 3 && spec_is_digit(v[0]) && spec_is_digit(v[1]) && spec_is_digit(
                v[2],
            ),
            None => false,
        }
    }

    /// The value of the three-digit `:status` pseudo-header.
    pub open spec fn spec_status(self) -> int {
        let v = spec_header_lookup(self.headers_view(), ":status".spec_bytes())->Some_0;
        (v[0] - 0x30) * 100 + (v[1] - 0x30) * 10 + (v[2] - 0x30)
    }

    /// All values under `key`, in order; the lookup key is lowercased
    /// first, response header names being lowercase on the wire already.
    pub fn headers(&self, key: &Vec<u8>) -> (r: Vec<Vec<u8>>)
        ensures
            r@.map_values(|v: Vec<u8>| v@) == spec_header_values(
                self.headers_view(),
                spec_lower(key@),
            ),
    {
        let lowered = lower_bytes(key);
        let ghost hs = self.headers_view();
        let mut out: Vec<Vec<u8>> = Vec::new();
        let mut i: usize = 0;
        assert(hs.skip(0) =~= hs);
        assert(out@.map_values(|v: Vec<u8>| v@) + spec_header_values(hs, lowered@)
            =~= spec_header_values(hs, lowered@));
        while i < self.headers.len()
            invariant
                i <= self.headers.len(),
                hs == self.headers_view(),
                lowered@ == spec_lower(key@),
                out@.map_values(|v: Vec<u8>| v@) + spec_header_values(hs.skip(i as int), lowered@)
                    == spec_header_values(hs, lowered@),
            decreases self.headers.len() - i,
        {
            let ghost tail = hs.skip(i as int);
            assert(tail[0] == hs[i as int]);
            assert(tail.skip(1) =~= hs.skip(i as int + 1));
            let ghost before = out@;
            if crate::request::bytes_eq(&self.headers[i].0, &lowered) {
                let v = crate::frame::subvec(&self.headers[i].1, 0, self.headers[i].1.len());
                assert(v@ =~= hs[i as int].1);
                out.push(v);
                assert(out@.map_values(|v: Vec<u8>| v@) =~= before.map_values(|v: Vec<u8>| v@)
                    + seq![hs[i as int].1]);
                assert(before.map_values(|v: Vec<u8>| v@) + (seq![hs[i as int].1]
                    + spec_header_values(hs.skip(i as int + 1), lowered@)) =~= out@.map_values(
                    |v: Vec<u8>| v@,
                ) + spec_header_values(hs.skip(i as int + 1), lowered@));
            }
            i = i + 1;
        }
        assert(spec_header_values(hs.skip(hs.len() as int), lowered@) =~= Seq::<Seq<u8>>::empty());
        assert(out@.map_values(|v: Vec<u8>| v@) + Seq::<Seq<u8>>::empty() =~= out@.map_values(
            |v: Vec<u8>| v@,
        ));
        out
    }

    /// The first value under `key`, if any.
    pub fn header(&self, key: &Vec<u8>) -> (r: Option<Vec<u8>>)
        ensures
            ({
                let spec = spec_header_lookup(self.headers_view(), spec_lower(key@));
                match r {
                    Some(v) => spec == Some(v@),
                    None => spec is None,
                }
            }),
    {
        let mut all = self.headers(key);
        if all.len() == 0 {
            None
        } else {
            let ghost vs = spec_header_values(self.headers_view(), spec_lower(key@));
            let first = all.remove(0);
            assert(first@ == vs[0]);
            Some(first)
        }
    }

    /// The numeric value of the `:status` pseudo-header.
    pub fn status(&self) -> (r: u16)
        requires
            self.has_status(),
        ensures
            r as int == self.spec_status(),
    {
        let mut key: Vec<u8> = Vec::new();
        key.push(0x3a);
        key.push(0x73);
        key.push(0x74);
        key.push(0x61);
        key.push(0x74);
        key.push(0x75);
        key.push(0x73);
        proof {
            vstd::string::is_ascii_spec_bytes(":status");
            reveal_strlit(":status");
            assert(key@ =~= ":status".spec_bytes());
            assert(spec_lower(key@) =~= key@);
        }
        let v = self.header(&key).unwrap();
        let d0 = (v[0] - 0x30) as u16;
        let d1 = (v[1] - 0x30) as u16;
        let d2 = (v[2] - 0x30) as u16;
        d0 * 100 + d1 * 10 + d2
    }

    /// Whether the status names success: 200 to 299.
    pub fn ok(&self) -> (r: bool)
        requires
            self.has_status(),
        ensures
            r == (200 <= self.spec_status() < 300),
    {
        let s = self.status();
        200 <= s && s < 300
    }
}

} // verus!
