//! Primitive wire codec: variable-length integers ("zint"), single bytes,
//! little-endian `u16` and length-prefixed byte slices.
//!
//! Every primitive comes as a triple: a spec serializer `ser_*`, a spec
//! parser `parse_*` that reads at an absolute position of a byte sequence and
//! returns the value with the position right after it, and exec functions
//! that append to a `Vec<u8>` or read from a `&[u8]` exactly as the spec
//! functions say.
use vstd::prelude::*;

verus! {

/// `t` is found in `s` starting at position `p`.
pub open spec fn holds_at(s: Seq<u8>, p: int, t: Seq<u8>) -> bool {
    0 <= p && p + t.len() <= s.len() && s.subrange(p, p + t.len()) == t
}

/// Splitting what is found at `p` into its two halves.
pub proof fn lemma_holds_at_split(s: Seq<u8>, p: int, a: Seq<u8>, b: Seq<u8>)
    requires
        holds_at(s, p, a + b),
    ensures
        holds_at(s, p, a),
        holds_at(s, p + a.len(), b),
{
    let w = s.subrange(p, p + a.len() + b.len());
    assert(w == a + b);
    assert(s.subrange(p, p + a.len()) =~= w.subrange(0, a.len() as int));
    assert(w.subrange(0, a.len() as int) =~= a);
    assert(s.subrange(p + a.len(), p + a.len() + b.len()) =~= w.subrange(
        a.len() as int,
        w.len() as int,
    ));
    assert(w.subrange(a.len() as int, w.len() as int) =~= b);
}

pub proof fn lemma_holds_at_split3(s: Seq<u8>, p: int, a: Seq<u8>, b: Seq<u8>, c: Seq<u8>)
    requires
        holds_at(s, p, a + b + c),
    ensures
        holds_at(s, p, a),
        holds_at(s, p + a.len(), b),
        holds_at(s, p + a.len() + b.len(), c),
{
    lemma_holds_at_split(s, p, a + b, c);
    lemma_holds_at_split(s, p, a, b);
}

pub proof fn lemma_holds_at_split4(
    s: Seq<u8>,
    p: int,
    a: Seq<u8>,
    b: Seq<u8>,
    c: Seq<u8>,
    d: Seq<u8>,
)
    requires
        holds_at(s, p, a + b + c + d),
    ensures
        holds_at(s, p, a),
        holds_at(s, p + a.len(), b),
        holds_at(s, p + a.len() + b.len(), c),
        holds_at(s, p + a.len() + b.len() + c.len(), d),
{
    lemma_holds_at_split(s, p, a + b + c, d);
    lemma_holds_at_split3(s, p, a, b, c);
}

/// A zint: little-endian base-128 digits, the high bit of each byte telling
/// that another byte follows.
pub open spec fn ser_zint(v: nat) -> Seq<u8>
    decreases v,
{
    if v < 128 {
        seq![v as u8]
    } else {
        seq![((v % 128) + 128) as u8] + ser_zint(v / 128)
    }
}

/// Parses a zint at `p`. A continuation byte followed by digits worth zero
/// is a non-minimal encoding and is rejected.
pub open spec fn parse_zint(s: Seq<u8>, p: int) -> Option<(nat, int)>
    decreases s.len() - p,
{
    if p < 0 || p >= s.len() {
        None
    } else if s[p] < 128 {
        Some((s[p] as nat, p + 1))
    } else {
        match parse_zint(s, p + 1) {
            Some((v, q)) => if v == 0 {
                None
            } else {
                Some(((s[p] - 128) as nat + 128 * v, q))
            },
            None => None,
        }
    }
}

pub proof fn lemma_parse_zint_bounds(s: Seq<u8>, p: int)
    ensures
        parse_zint(s, p) matches Some((v, q)) ==> p < q <= s.len(),
    decreases s.len() - p,
{
    if 0 <= p < s.len() && s[p] >= 128 {
        lemma_parse_zint_bounds(s, p + 1);
    }
}

pub proof fn lemma_parse_zint_bounds_all(s: Seq<u8>)
    ensures
        forall|p: int| #[trigger]
            parse_zint(s, p) is Some ==> p < parse_zint(s, p).unwrap().1 <= s.len(),
{
    assert forall|p: int| #[trigger]
        parse_zint(s, p) is Some implies p < parse_zint(s, p).unwrap().1 <= s.len() by {
        lemma_parse_zint_bounds(s, p);
    }
}

pub proof fn lemma_zint_round_trip(v: nat, s: Seq<u8>, p: int)
    requires
        holds_at(s, p, ser_zint(v)),
    ensures
        parse_zint(s, p) == Some((v, p + ser_zint(v).len())),
    decreases v,
{
    if v < 128 {
        assert(s[p] == s.subrange(p, p + 1)[0]);
    } else {
        let a = seq![((v % 128) + 128) as u8];
        lemma_holds_at_split(s, p, a, ser_zint(v / 128));
        assert(s[p] == s.subrange(p, p + 1)[0]);
        lemma_zint_round_trip(v / 128, s, p + 1);
    }
}

/// A zint of a `u64` fits in ten bytes.
pub proof fn lemma_zint_len(v: nat, k: nat)
    requires
        v < pow128(k),
        k >= 1,
    ensures
        ser_zint(v).len() <= k,
    decreases v,
{
    if v >= 128 {
        assert(pow128(k) == 128 * pow128((k - 1) as nat));
        if k == 1 {
            assert(pow128(0) == 1);
        } else {
            assert(v / 128 < pow128((k - 1) as nat));
            lemma_zint_len(v / 128, (k - 1) as nat);
        }
    }
}

pub open spec fn pow128(k: nat) -> nat
    decreases k,
{
    if k == 0 {
        1
    } else {
        128 * pow128((k - 1) as nat)
    }
}

pub proof fn lemma_u64_zint_len(v: u64)
    ensures
        ser_zint(v as nat).len() <= 10,
{
    reveal_with_fuel(pow128, 11);
    lemma_zint_len(v as nat, 10);
}

pub open spec fn ser_z64(v: u64) -> Seq<u8> {
    ser_zint(v as nat)
}

/// A zint read as a `u64`: larger values are rejected.
pub open spec fn parse_z64(s: Seq<u8>, p: int) -> Option<(u64, int)> {
    match parse_zint(s, p) {
        Some((v, q)) => if v <= u64::MAX {
            Some((v as u64, q))
        } else {
            None
        },
        None => None,
    }
}

/// A zint read as a `u32`: larger values are rejected.
pub open spec fn parse_z32(s: Seq<u8>, p: int) -> Option<(u32, int)> {
    match parse_zint(s, p) {
        Some((v, q)) => if v <= u32::MAX {
            Some((v as u32, q))
        } else {
            None
        },
        None => None,
    }
}

pub open spec fn ser_u8(v: u8) -> Seq<u8> {
    seq![v]
}

pub open spec fn parse_u8(s: Seq<u8>, p: int) -> Option<(u8, int)> {
    if 0 <= p < s.len() {
        Some((s[p], p + 1))
    } else {
        None
    }
}

pub open spec fn ser_u16(v: u16) -> Seq<u8> {
    seq![(v % 256) as u8, (v / 256) as u8]
}

pub open spec fn parse_u16(s: Seq<u8>, p: int) -> Option<(u16, int)> {
    if 0 <= p && p + 2 <= s.len() {
        Some(((s[p] + 256 * s[p + 1]) as u16, p + 2))
    } else {
        None
    }
}

/// A byte slice: its length as a zint, then the bytes.
pub open spec fn ser_bytes(b: Seq<u8>) -> Seq<u8> {
    ser_zint(b.len()) + b
}

pub open spec fn parse_bytes(s: Seq<u8>, p: int) -> Option<(Seq<u8>, int)> {
    match parse_zint(s, p) {
        Some((n, q)) => if q + n <= s.len() {
            Some((s.subrange(q, q + n), q + n))
        } else {
            None
        },
        None => None,
    }
}

pub proof fn lemma_u8_round_trip(v: u8, s: Seq<u8>, p: int)
    requires
        holds_at(s, p, ser_u8(v)),
    ensures
        parse_u8(s, p) == Some((v, p + 1)),
{
    assert(s[p] == s.subrange(p, p + 1)[0]);
}

pub proof fn lemma_u16_round_trip(v: u16, s: Seq<u8>, p: int)
    requires
        holds_at(s, p, ser_u16(v)),
    ensures
        parse_u16(s, p) == Some((v, p + 2)),
{
    assert(s[p] == s.subrange(p, p + 2)[0]);
    assert(s[p + 1] == s.subrange(p, p + 2)[1]);
}

pub proof fn lemma_z64_round_trip(v: u64, s: Seq<u8>, p: int)
    requires
        holds_at(s, p, ser_z64(v)),
    ensures
        parse_z64(s, p) == Some((v, p + ser_z64(v).len())),
{
    lemma_zint_round_trip(v as nat, s, p);
}

pub proof fn lemma_z32_round_trip(v: u32, s: Seq<u8>, p: int)
    requires
        holds_at(s, p, ser_z64(v as u64)),
    ensures
        parse_z32(s, p) == Some((v, p + ser_z64(v as u64).len())),
{
    lemma_zint_round_trip(v as nat, s, p);
}

pub proof fn lemma_bytes_round_trip(b: Seq<u8>, s: Seq<u8>, p: int)
    requires
        holds_at(s, p, ser_bytes(b)),
    ensures
        parse_bytes(s, p) == Some((b, p + ser_bytes(b).len())),
{
    lemma_holds_at_split(s, p, ser_zint(b.len()), b);
    lemma_zint_round_trip(b.len(), s, p);
}

/// Number of bytes of the zint of `v`.
pub fn zint_len(v: u64) -> (r: usize)
    ensures
        r == ser_z64(v).len(),
        1 <= r <= 10,
{
    proof {
        lemma_u64_zint_len(v);
    }
    let mut x = v;
    let mut n: usize = 1;
    while x >= 128
        invariant
            n + ser_zint(x as nat).len() == ser_zint(v as nat).len() + 1,
            ser_zint(v as nat).len() <= 10,
            n >= 1,
        decreases x,
    {
        x = x / 128;
        n = n + 1;
    }
    n
}

/// Appends the zint of `v`.
pub fn write_zint(out: &mut Vec<u8>, v: u64)
    ensures
        final(out)@ == old(out)@ + ser_z64(v),
{
    let mut x = v;
    while x >= 128
        invariant
            out@ + ser_zint(x as nat) == old(out)@ + ser_zint(v as nat),
        decreases x,
    {
        let ghost prev = out@;
        out.push(((x % 128) + 128) as u8);
        proof {
            assert(out@ + ser_zint((x / 128) as nat) =~= prev + ser_zint(x as nat));
        }
        x = x / 128;
    }
    out.push(x as u8);
    proof {
        assert(out@ =~= old(out)@ + ser_zint(v as nat));
    }
}

/// Reads a zint at `pos` as a `u64`.
pub fn read_z64(buf: &[u8], pos: usize) -> (r: Option<(u64, usize)>)
    ensures
        match parse_z64(buf@, pos as int) {
            Some((v, q)) => pos < q <= buf@.len() && (r matches Some((w, e)) && w == v && e == q),
            None => r is None,
        },
    decreases buf@.len() - pos,
{
    proof {
        lemma_parse_zint_bounds(buf@, pos as int);
    }
    if pos >= buf.len() {
        return None;
    }
    let b = buf[pos];
    if b < 128 {
        return Some((b as u64, pos + 1));
    }
    let low = (b - 128) as u64;
    match read_z64(buf, pos + 1) {
        None => {
            proof {
                match parse_zint(buf@, pos + 1) {
                    Some((v, q)) => {
                        assert(low + 128 * v > u64::MAX) by (nonlinear_arith)
                            requires
                                v > u64::MAX,
                        ;
                    },
                    None => {},
                }
            }
            None
        },
        Some((v, q)) => {
            if v == 0 || v > (u64::MAX - low) / 128 {
                proof {
                    if v != 0 {
                        assert(low + 128 * v > u64::MAX) by (nonlinear_arith)
                            requires
                                v > (u64::MAX - low) / 128,
                                low <= 127,
                        ;
                    }
                }
                None
            } else {
                assert(low + 128 * v <= u64::MAX) by (nonlinear_arith)
                    requires
                        v <= (u64::MAX - low) / 128,
                        low <= 127,
                ;
                Some((low + 128 * v, q))
            }
        },
    }
}

/// Reads a zint at `pos` as a `u32`.
pub fn read_z32(buf: &[u8], pos: usize) -> (r: Option<(u32, usize)>)
    ensures
        match parse_z32(buf@, pos as int) {
            Some((v, q)) => pos < q <= buf@.len() && (r matches Some((w, e)) && w == v && e == q),
            None => r is None,
        },
{
    match read_z64(buf, pos) {
        Some((v, q)) => if v <= u32::MAX as u64 {
            Some((v as u32, q))
        } else {
            None
        },
        None => None,
    }
}

pub fn write_u8(out: &mut Vec<u8>, v: u8)
    ensures
        final(out)@ == old(out)@ + ser_u8(v),
{
    out.push(v);
    proof {
        assert(final(out)@ =~= old(out)@ + ser_u8(v));
    }
}

pub fn read_u8(buf: &[u8], pos: usize) -> (r: Option<(u8, usize)>)
    ensures
        match parse_u8(buf@, pos as int) {
            Some((v, q)) => pos < q <= buf@.len() && (r matches Some((w, e)) && w == v && e == q),
            None => r is None,
        },
{
    if pos < buf.len() {
        Some((buf[pos], pos + 1))
    } else {
        None
    }
}

pub fn write_u16(out: &mut Vec<u8>, v: u16)
    ensures
        final(out)@ == old(out)@ + ser_u16(v),
{
    out.push((v % 256) as u8);
    out.push((v / 256) as u8);
    proof {
        assert(final(out)@ =~= old(out)@ + ser_u16(v));
    }
}

pub fn read_u16(buf: &[u8], pos: usize) -> (r: Option<(u16, usize)>)
    ensures
        match parse_u16(buf@, pos as int) {
            Some((v, q)) => pos < q <= buf@.len() && (r matches Some((w, e)) && w == v && e == q),
            None => r is None,
        },
{
    if pos < buf.len() && buf.len() - pos >= 2 {
        Some(((buf[pos] as u16) + 256 * (buf[pos + 1] as u16), pos + 2))
    } else {
        None
    }
}

pub fn write_bytes(out: &mut Vec<u8>, b: &[u8])
    ensures
        final(out)@ == old(out)@ + ser_bytes(b@),
{
    write_zint(out, b.len() as u64);
    let ghost mid = out@;
    let mut i: usize = 0;
    while i < b.len()
        invariant
            i <= b@.len(),
            out@ == mid + b@.subrange(0, i as int),
        decreases b@.len() - i,
    {
        out.push(b[i]);
        proof {
            assert(b@.subrange(0, i + 1) =~= b@.subrange(0, i as int).push(b@[i as int]));
        }
        i = i + 1;
    }
    proof {
        assert(b@.subrange(0, b@.len() as int) =~= b@);
        assert(final(out)@ =~= old(out)@ + ser_bytes(b@));
    }
}

/// Copies `buf[from..to]`.
pub fn copy_range(buf: &[u8], from: usize, to: usize) -> (r: Vec<u8>)
    requires
        from <= to <= buf@.len(),
    ensures
        r@ == buf@.subrange(from as int, to as int),
{
    let mut r: Vec<u8> = Vec::new();
    let mut i: usize = from;
    while i < to
        invariant
            from <= i <= to <= buf@.len(),
            r@ == buf@.subrange(from as int, i as int),
        decreases to - i,
    {
        r.push(buf[i]);
        proof {
            assert(buf@.subrange(from as int, i + 1) =~= buf@.subrange(from as int, i as int).push(
                buf@[i as int],
            ));
        }
        i = i + 1;
    }
    r
}

pub fn read_bytes(buf: &[u8], pos: usize) -> (r: Option<(Vec<u8>, usize)>)
    ensures
        match parse_bytes(buf@, pos as int) {
            Some((v, q)) => r matches Some((w, e)) && w@ == v && e == q,
            None => r is None,
        },
{
    match read_z64(buf, pos) {
        None => {
            let len = buf.len();
            proof {
                lemma_parse_zint_bounds(buf@, pos as int);
                assert(buf@.len() == len);
            }
            None
        },
        Some((n, q)) => {
            proof {
                lemma_parse_zint_bounds(buf@, pos as int);
            }
            if n > (buf.len() - q) as u64 {
                None
            } else {
                let e = q + n as usize;
                Some((copy_range(buf, q, e), e))
            }
        },
    }
}

/// Overwrites `buf[at..at + src.len()]` with `src`.
pub fn write_at(buf: &mut Vec<u8>, at: usize, src: &Vec<u8>)
    requires
        at + src@.len() <= old(buf)@.len(),
    ensures
        final(buf)@ == old(buf)@.subrange(0, at as int) + src@ + old(buf)@.subrange(
            at + src@.len(),
            old(buf)@.len() as int,
        ),
{
    let n = buf.len();
    let mut i: usize = 0;
    while i < src.len()
        invariant
            n == old(buf)@.len(),
            at + src@.len() <= old(buf)@.len(),
            i <= src@.len(),
            buf@.len() == old(buf)@.len(),
            buf@ == old(buf)@.subrange(0, at as int) + src@.subrange(0, i as int) + old(buf)@.subrange(at + i, old(buf)@.len() as int),
        decreases src@.len() - i,
    {
        let ghost prev = buf@;
        buf[at + i] = src[i];
        proof {
            assert(buf@ =~= old(buf)@.subrange(0, at as int) + src@.subrange(0, i + 1)
                + old(buf)@.subrange(at + i + 1, old(buf)@.len() as int));
        }
        i = i + 1;
    }
    proof {
        assert(src@.subrange(0, src@.len() as int) =~= src@);
    }
}

} // verus!
