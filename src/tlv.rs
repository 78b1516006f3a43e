use vstd::prelude::*;

use crate::error::{Error, ErrorCode};

verus! {

/// Control byte of an anonymous structure.
pub const TLV_STRUCT: u8 = 0x15;
/// Control byte that ends a container.
pub const TLV_END: u8 = 0x18;
/// Control byte of a context-tagged octet string with a one-byte length.
pub const TLV_STR8: u8 = 0x30;
/// Control byte of a context-tagged octet string with a two-byte length.
pub const TLV_STR16: u8 = 0x31;
/// Control byte of a context-tagged two-byte unsigned integer.
pub const TLV_U16: u8 = 0x25;

/// A context-tagged octet string: the short form below 256 bytes, else the
/// two-byte length form, length little-endian.
pub open spec fn enc_str(tag: u8, d: Seq<u8>) -> Seq<u8> {
    if d.len() < 256 {
        seq![TLV_STR8, tag, d.len() as u8] + d
    } else {
        seq![TLV_STR16, tag, (d.len() % 256) as u8, (d.len() / 256) as u8] + d
    }
}

/// An octet string that is there or not.
pub open spec fn enc_opt_str(tag: u8, d: Option<Seq<u8>>) -> Seq<u8> {
    match d {
        Some(x) => enc_str(tag, x),
        None => Seq::empty(),
    }
}

/// A context-tagged two-byte unsigned integer, little-endian.
pub open spec fn enc_u16(tag: u8, v: u16) -> Seq<u8> {
    seq![TLV_U16, tag, (v % 256) as u8, (v / 256) as u8]
}

/// Little-endian bytes of `v`, `n` of them.
pub open spec fn le_bytes(v: nat, n: nat) -> Seq<u8>
    decreases n,
{
    if n == 0 {
        Seq::empty()
    } else {
        seq![(v % 256) as u8] + le_bytes(v / 256, (n - 1) as nat)
    }
}

/// The number that little-endian bytes stand for.
pub open spec fn le_val(s: Seq<u8>) -> nat
    decreases s.len(),
{
    if s.len() == 0 {
        0
    } else {
        (s[0] + 256 * le_val(s.subrange(1, s.len() as int))) as nat
    }
}

/// 256 to the power `n`.
pub open spec fn pow256(n: nat) -> nat
    decreases n,
{
    if n == 0 {
        1
    } else {
        256 * pow256((n - 1) as nat)
    }
}

/// Control byte of a context-tagged unsigned integer `w` bytes wide.
pub open spec fn uint_ctl(w: u8) -> u8 {
    if w == 1 {
        0x24
    } else if w == 2 {
        0x25
    } else if w == 4 {
        0x26
    } else {
        0x27
    }
}

/// The widths an integer element may have.
pub open spec fn valid_width(w: u8) -> bool {
    w == 1 || w == 2 || w == 4 || w == 8
}

/// A context-tagged unsigned integer written in `w` bytes, little-endian.
pub open spec fn enc_uint(tag: u8, w: u8, v: nat) -> Seq<u8> {
    seq![uint_ctl(w), tag] + le_bytes(v, w as nat)
}

/// Whether the bytes at `pos` start with the integer `v`, `w` bytes wide,
/// under tag `tag`.
pub open spec fn uint_at(b: Seq<u8>, pos: int, tag: u8, w: u8, v: nat) -> bool {
    &&& valid_width(w)
    &&& v < pow256(w as nat)
    &&& 0 <= pos
    &&& pos + 2 + w <= b.len()
    &&& b.subrange(pos, pos + 2 + w) == enc_uint(tag, w, v)
}

proof fn lemma_le_val_bound(s: Seq<u8>)
    ensures
        le_val(s) < pow256(s.len()),
    decreases s.len(),
{
    if s.len() > 0 {
        let t = s.subrange(1, s.len() as int);
        lemma_le_val_bound(t);
        let x = le_val(t);
        let p = pow256(t.len());
        assert(s[0] + 256 * x < 256 * p) by (nonlinear_arith)
            requires
                s[0] <= 255,
                x < p,
        ;
    }
}

proof fn lemma_le_bytes_of_val(s: Seq<u8>)
    ensures
        le_bytes(le_val(s), s.len()) == s,
    decreases s.len(),
{
    if s.len() > 0 {
        let t = s.subrange(1, s.len() as int);
        lemma_le_bytes_of_val(t);
        let v = le_val(s);
        assert(v % 256 == s[0] as nat && v / 256 == le_val(t)) by (nonlinear_arith)
            requires
                v == s[0] + 256 * le_val(t),
                s[0] <= 255,
        ;
        assert(le_bytes(v, s.len()) =~= s);
    }
}

proof fn lemma_val_of_le_bytes(v: nat, n: nat)
    ensures
        le_bytes(v, n).len() == n,
        v < pow256(n) ==> le_val(le_bytes(v, n)) == v,
    decreases n,
{
    if n > 0 {
        lemma_val_of_le_bytes(v / 256, (n - 1) as nat);
        let s = le_bytes(v, n);
        assert(s.subrange(1, s.len() as int) =~= le_bytes(v / 256, (n - 1) as nat));
        if v < pow256(n) {
            assert(v / 256 < pow256((n - 1) as nat)) by (nonlinear_arith)
                requires
                    v < 256 * pow256((n - 1) as nat),
            ;
            assert(v == v % 256 + 256 * (v / 256)) by (nonlinear_arith);
        }
    }
}

/// Append an unsigned integer `w` bytes wide.
pub fn put_uint(buf: &mut Vec<u8>, tag: u8, w: u8, v: u64)
    requires
        valid_width(w),
        (v as nat) < pow256(w as nat),
    ensures
        final(buf)@ == old(buf)@ + enc_uint(tag, w, v as nat),
{
    let ctl: u8 = if w == 1 {
        0x24
    } else if w == 2 {
        0x25
    } else if w == 4 {
        0x26
    } else {
        0x27
    };
    buf.push(ctl);
    buf.push(tag);
    let ghost head = buf@;
    let mut x: u64 = v;
    let mut i: u8 = 0;
    while i < w
        invariant
            i <= w,
            w <= 8,
            buf@ + le_bytes(x as nat, (w - i) as nat) == head + le_bytes(v as nat, w as nat),
        decreases w - i,
    {
        proof {
            let rest = le_bytes(x as nat, (w - i) as nat);
            assert(rest == seq![(x % 256) as u8] + le_bytes((x / 256) as nat, (w - i - 1) as nat));
            assert(buf@.push((x % 256) as u8) + le_bytes((x / 256) as nat, (w - i - 1) as nat) =~= buf@ + rest);
        }
        buf.push((x % 256) as u8);
        x = x / 256;
        i = i + 1;
    }
    assert(buf@ =~= buf@ + le_bytes(x as nat, 0));
    assert(buf@ =~= old(buf)@ + enc_uint(tag, w, v as nat));
}

/// Read an unsigned integer of any width with tag `tag` at `pos`; returns
/// its width, its value and the position after it.
pub fn get_uint(b: &[u8], pos: usize, tag: u8) -> (r: Result<(u8, u64, usize), Error>)
    ensures
        r is Ok ==> {
            let (w, v, p) = r->Ok_0;
            &&& p == pos + 2 + w
            &&& uint_at(b@, pos as int, tag, w, v as nat)
        },
        r is Err ==> r == Err::<(u8, u64, usize), Error>(ErrorCode::InvalidData),
        forall|w: u8, v: nat| #[trigger] uint_at(b@, pos as int, tag, w, v) ==> r is Ok && r->Ok_0.0 == w
            && r->Ok_0.1 == v,
{
    proof {
        assert forall|w: u8, v: nat| #[trigger] uint_at(b@, pos as int, tag, w, v) implies b@[pos as int]
            == uint_ctl(w) && b@[pos + 1] == tag && b@.subrange(pos + 2, pos + 2 + w) == le_bytes(v, w as nat)
            && le_val(b@.subrange(pos + 2, pos + 2 + w)) == v by {
            let e = enc_uint(tag, w, v);
            assert(b@.subrange(pos as int, pos + 2 + w)[0] == e[0]);
            assert(b@.subrange(pos as int, pos + 2 + w)[1] == e[1]);
            assert(b@.subrange(pos + 2, pos + 2 + w) =~= e.subrange(2, 2 + w));
            lemma_val_of_le_bytes(v, w as nat);
            assert(e.subrange(2, 2 + w) =~= le_bytes(v, w as nat));
        }
    }
    if pos >= b.len() || b.len() - pos < 2 || b[pos + 1] != tag {
        return Err(ErrorCode::InvalidData);
    }
    let c = b[pos];
    let w: u8 = if c == 0x24 {
        1
    } else if c == 0x25 {
        2
    } else if c == 0x26 {
        4
    } else if c == 0x27 {
        8
    } else {
        return Err(ErrorCode::InvalidData);
    };
    if b.len() - pos - 2 < w as usize {
        return Err(ErrorCode::InvalidData);
    }
    let start = pos + 2;
    let end = start + w as usize;
    let mut v: u64 = 0;
    let mut i: usize = w as usize;
    while i > 0
        invariant
            end == start + w,
            end <= b@.len(),
            w <= 8,
            0 <= i <= w,
            v as nat == le_val(b@.subrange(start + i, end as int)),
            (v as nat) < pow256((w - i) as nat),
        decreases i,
    {
        let ghost t = b@.subrange(start + i, end as int);
        let ghost s = b@.subrange(start + i - 1, end as int);
        proof {
            assert(s.subrange(1, s.len() as int) =~= t);
            lemma_le_val_bound(s);
            assert(s.len() == w - i + 1);
            assert(pow256((w - i + 1) as nat) == 256 * pow256((w - i) as nat));
            assert(pow256((w - i + 1) as nat) <= pow256(8)) by {
                lemma_pow256_mono((w - i + 1) as nat, 8);
            }
            lemma_pow256_8();
        }
        v = b[start + i - 1] as u64 + 256 * v;
        i = i - 1;
    }
    proof {
        let s = b@.subrange(start as int, end as int);
        lemma_le_bytes_of_val(s);
        assert(b@.subrange(pos as int, end as int) =~= enc_uint(tag, w, v as nat));
    }
    Ok((w, v, end))
}

pub proof fn lemma_uint_len(w: u8, v: nat)
    ensures
        enc_uint(0, w, v).len() == 2 + w,
        forall|t: u8| #[trigger] enc_uint(t, w, v).len() == 2 + w,
{
    lemma_val_of_le_bytes(v, w as nat);
}

/// Whether `v` can be written in `w` bytes, `w` a width an integer may have.
pub fn uint_fits(w: u8, v: u64) -> (r: bool)
    ensures
        r == (valid_width(w) && (v as nat) < pow256(w as nat)),
{
    proof {
        lemma_pow256_8();
        lemma_pow256_mono(4, 8);
        lemma_pow256_mono(2, 4);
    }
    if w == 1 {
        v < 256
    } else if w == 2 {
        v < 0x1_0000
    } else if w == 4 {
        v < 0x1_0000_0000
    } else {
        w == 8
    }
}

/// Whether `x` is a context-tagged structure with tag `tag` holding scalar
/// elements only.
pub fn check_struct(x: &[u8], tag: u8) -> (r: bool)
    ensures
        r == struct_ok(tag, x@),
{
    assert(x@.subrange(0, x@.len() as int) =~= x@);
    assert(x@.subrange(0 as int, (0 + x@.len()) as int) == x@);
    match get_opt_struct(x, 0, tag) {
        Ok((Some(d), p)) => {
            if p == x.len() {
                assert(d@ =~= x@.subrange(0, p as int));
                true
            } else {
                false
            }
        },
        _ => false,
    }
}

proof fn lemma_pow256_8()
    ensures
        pow256(1) == 0x100,
        pow256(2) == 0x1_0000,
        pow256(4) == 0x1_0000_0000,
        pow256(8) == 0x1_0000_0000_0000_0000,
{
    assert(pow256(0) == 1);
    assert(pow256(1) == 0x100);
    assert(pow256(2) == 0x1_0000);
    assert(pow256(3) == 0x100_0000);
    assert(pow256(4) == 0x1_0000_0000);
    assert(pow256(5) == 0x100_0000_0000);
    assert(pow256(6) == 0x1_0000_0000_0000);
    assert(pow256(7) == 0x100_0000_0000_0000);
}

proof fn lemma_pow256_mono(a: nat, c: nat)
    requires
        a <= c,
    ensures
        pow256(a) <= pow256(c),
        pow256(a) >= 1,
    decreases c,
{
    if a < c {
        lemma_pow256_mono(a, (c - 1) as nat);
    } else if a > 0 {
        lemma_pow256_mono((a - 1) as nat, (a - 1) as nat);
    }
}

/// Width of the value of a scalar element (integer, boolean or null) by its
/// control byte, for a context tag; -1 for anything else.
pub open spec fn scalar_width(c: u8) -> int {
    if 0x20 <= c <= 0x27 {
        if c % 4 == 0 {
            1
        } else if c % 4 == 1 {
            2
        } else if c % 4 == 2 {
            4
        } else {
            8
        }
    } else if c == 0x28 || c == 0x29 || c == 0x34 {
        0
    } else {
        -1
    }
}

/// Where a run of scalar elements starting at `p` is closed by an end byte.
pub open spec fn scan_end(b: Seq<u8>, p: int) -> Option<int>
    decreases b.len() - p,
{
    if p < 0 || p >= b.len() {
        None
    } else if b[p] == TLV_END {
        Some(p)
    } else if scalar_width(b[p]) >= 0 && p + 2 + scalar_width(b[p]) <= b.len() {
        scan_end(b, p + 2 + scalar_width(b[p]))
    } else {
        None
    }
}

/// Control byte of a context-tagged structure.
pub const TLV_CTX_STRUCT: u8 = 0x35;

/// Whether `x` is a context-tagged structure with tag `tag` that holds
/// scalar elements only.
pub open spec fn struct_ok(tag: u8, x: Seq<u8>) -> bool {
    x.len() >= 3 && x[0] == TLV_CTX_STRUCT && x[1] == tag && scan_end(x, 2) == Some(x.len() - 1)
}

/// A structure that is there or not, as its raw bytes.
pub open spec fn enc_opt_raw(x: Option<Seq<u8>>) -> Seq<u8> {
    match x {
        Some(v) => v,
        None => Seq::empty(),
    }
}

proof fn lemma_scan_start(b: Seq<u8>, p: int)
    ensures
        scan_end(b, p) is Some ==> scan_end(b, p)->Some_0 >= p && scan_end(b, p)->Some_0 < b.len(),
    decreases b.len() - p,
{
    if 0 <= p < b.len() && b[p] != TLV_END && scalar_width(b[p]) >= 0 && p + 2 + scalar_width(b[p]) <= b.len() {
        lemma_scan_start(b, p + 2 + scalar_width(b[p]));
    }
}

/// Scanning inside `x` and inside a sequence `y` that holds `x` at `off`
/// finds the same end, as long as it lies within `x`.
proof fn lemma_scan_shift(x: Seq<u8>, y: Seq<u8>, off: int, p: int)
    requires
        0 <= off,
        off + x.len() <= y.len(),
        y.subrange(off, off + x.len()) == x,
        0 <= p,
    ensures
        scan_end(x, p) is Some ==> scan_end(y, p + off) == Some(scan_end(x, p)->Some_0 + off),
        scan_end(y, p + off) is Some && scan_end(y, p + off)->Some_0 < off + x.len() ==> scan_end(x, p)
            == Some(scan_end(y, p + off)->Some_0 - off),
    decreases x.len() - p,
{
    lemma_scan_start(y, p + off);
    if p < x.len() {
        assert(y[p + off] == x[p]) by {
            assert(y.subrange(off, off + x.len())[p] == x[p]);
        }
        if x[p] != TLV_END && scalar_width(x[p]) >= 0 {
            let q = p + 2 + scalar_width(x[p]);
            if q <= x.len() {
                lemma_scan_shift(x, y, off, q);
            } else {
                if p + off + 2 + scalar_width(x[p]) <= y.len() {
                    lemma_scan_start(y, q + off);
                }
            }
        }
    }
}

/// Read a structure of scalar elements with tag `tag` at `pos` if the next
/// element has that tag, as its raw bytes; else read nothing.
pub fn get_opt_struct(b: &[u8], pos: usize, tag: u8) -> (r: Result<(Option<Vec<u8>>, usize), Error>)
    ensures
        r is Ok ==> {
            let (d, p) = r->Ok_0;
            &&& pos <= p <= b@.len()
            &&& b@.subrange(pos as int, p as int) == enc_opt_raw(
                match d {
                    Some(x) => Some(x@),
                    None => None,
                },
            )
            &&& d is Some ==> struct_ok(tag, d->Some_0@)
        },
        r is Err ==> r == Err::<(Option<Vec<u8>>, usize), Error>(ErrorCode::InvalidData),
        forall|x: Seq<u8>|
            struct_ok(tag, x) && pos + x.len() <= b@.len() && #[trigger] b@.subrange(pos as int, pos + x.len())
                == x ==> r is Ok && r->Ok_0.0 is Some && r->Ok_0.0->Some_0@ == x && r->Ok_0.1 == pos + x.len(),
        no_tag_at(b@, pos as int, tag) ==> r is Ok && r->Ok_0.0 is None && r->Ok_0.1 == pos,
{
    proof {
        assert forall|x: Seq<u8>|
            struct_ok(tag, x) && pos + x.len() <= b@.len() && #[trigger] b@.subrange(pos as int, pos + x.len())
                == x implies b@[pos + 1] == tag && b@[pos as int] == TLV_CTX_STRUCT && scan_end(b@, pos + 2)
            == Some(pos + x.len() - 1) by {
            assert(b@.subrange(pos as int, pos + x.len())[0] == x[0]);
            assert(b@.subrange(pos as int, pos + x.len())[1] == x[1]);
            lemma_scan_shift(x, b@, pos as int, 2);
        }
    }
    if pos > b.len() {
        return Err(ErrorCode::InvalidData);
    }
    if b.len() - pos < 2 || b[pos + 1] != tag {
        assert(b@.subrange(pos as int, pos as int) =~= Seq::<u8>::empty());
        return Ok((None, pos));
    }
    if b[pos] != TLV_CTX_STRUCT {
        return Err(ErrorCode::InvalidData);
    }
    let len = b.len();
    let mut q: usize = pos + 2;
    loop
        invariant
            len == b@.len(),
            pos + 2 <= q <= len,
            b@[pos + 1] == tag,
            scan_end(b@, pos + 2) == scan_end(b@, q as int),
            forall|x: Seq<u8>|
                struct_ok(tag, x) && pos + x.len() <= b@.len() && #[trigger] b@.subrange(pos as int, pos + x.len())
                    == x ==> scan_end(b@, pos + 2) == Some(pos + x.len() - 1),
        ensures
            q < len,
            b@[q as int] == TLV_END,
            scan_end(b@, pos + 2) == Some(q as int),
        decreases len - q,
    {
        if q >= len {
            return Err(ErrorCode::InvalidData);
        }
        let c = b[q];
        if c == TLV_END {
            break;
        }
        let w: usize = if 0x20 <= c && c <= 0x27 {
            if c % 4 == 0 {
                1
            } else if c % 4 == 1 {
                2
            } else if c % 4 == 2 {
                4
            } else {
                8
            }
        } else if c == 0x28 || c == 0x29 || c == 0x34 {
            0
        } else {
            return Err(ErrorCode::InvalidData);
        };
        assert(w as int == scalar_width(c));
        if len - q < 2 || len - q - 2 < w {
            return Err(ErrorCode::InvalidData);
        }
        q = q + 2 + w;
    }
    let end = q + 1;
    let mut d: Vec<u8> = Vec::new();
    let mut i: usize = pos;
    while i < end
        invariant
            pos <= i <= end,
            end <= b@.len(),
            d@ == b@.subrange(pos as int, i as int),
        decreases end - i,
    {
        d.push(b[i]);
        proof {
            assert(b@.subrange(pos as int, i + 1) =~= b@.subrange(pos as int, i as int).push(b@[i as int]));
        }
        i = i + 1;
    }
    proof {
        lemma_scan_start(b@, pos + 2);
        lemma_scan_shift(d@, b@, pos as int, 2);
        assert(d@[0] == b@[pos as int]);
        assert(d@[1] == b@[pos + 1]);
    }
    Ok((Some(d), end))
}

/// Append raw bytes.
pub fn put_raw(buf: &mut Vec<u8>, d: &[u8])
    ensures
        final(buf)@ == old(buf)@ + d@,
{
    let mut i: usize = 0;
    while i < d.len()
        invariant
            i <= d@.len(),
            buf@ == old(buf)@ + d@.subrange(0, i as int),
        decreases d@.len() - i,
    {
        buf.push(d[i]);
        proof {
            assert(d@.subrange(0, i as int + 1) =~= d@.subrange(0, i as int).push(d@[i as int]));
        }
        i = i + 1;
    }
    assert(d@.subrange(0, d@.len() as int) =~= d@);
}

/// Whether a string fits the two-byte length form.
pub open spec fn str_fits(d: Seq<u8>) -> bool {
    d.len() < 0x1_0000
}

/// Whether the bytes at `pos` start with the string `d` under tag `tag`.
pub open spec fn str_at(b: Seq<u8>, pos: int, tag: u8, d: Seq<u8>) -> bool {
    &&& str_fits(d)
    &&& 0 <= pos
    &&& pos + enc_str(tag, d).len() <= b.len()
    &&& b.subrange(pos, pos + enc_str(tag, d).len()) == enc_str(tag, d)
}

/// Whether the bytes at `pos` start with the integer `v` under tag `tag`.
pub open spec fn u16_at(b: Seq<u8>, pos: int, tag: u8, v: u16) -> bool {
    &&& 0 <= pos
    &&& pos + 4 <= b.len()
    &&& b.subrange(pos, pos + 4) == enc_u16(tag, v)
}

/// Whether no element with tag `tag` starts at `pos`.
pub open spec fn no_tag_at(b: Seq<u8>, pos: int, tag: u8) -> bool {
    0 <= pos <= b.len() && (pos + 2 > b.len() || b[pos + 1] != tag)
}

/// Open an anonymous structure.
pub fn put_struct_start(buf: &mut Vec<u8>)
    ensures
        final(buf)@ == old(buf)@.push(TLV_STRUCT),
{
    buf.push(TLV_STRUCT);
}

/// Close a container.
pub fn put_end(buf: &mut Vec<u8>)
    ensures
        final(buf)@ == old(buf)@.push(TLV_END),
{
    buf.push(TLV_END);
}

/// Append an octet string; fails when it is too long for a two-byte length.
pub fn put_str(buf: &mut Vec<u8>, tag: u8, d: &[u8]) -> (r: Result<(), Error>)
    ensures
        r is Ok <==> str_fits(d@),
        r is Ok ==> final(buf)@ == old(buf)@ + enc_str(tag, d@),
        r is Err ==> r == Err::<(), Error>(ErrorCode::NoSpace) && final(buf)@ == old(buf)@,
{
    let n = d.len();
    if n >= 0x1_0000 {
        return Err(ErrorCode::NoSpace);
    }
    if n < 256 {
        buf.push(TLV_STR8);
        buf.push(tag);
        buf.push(n as u8);
    } else {
        buf.push(TLV_STR16);
        buf.push(tag);
        buf.push((n % 256) as u8);
        buf.push((n / 256) as u8);
    }
    let ghost head = buf@;
    let mut i: usize = 0;
    while i < n
        invariant
            n == d@.len(),
            i <= n,
            buf@ == head + d@.subrange(0, i as int),
        decreases n - i,
    {
        buf.push(d[i]);
        proof {
            assert(d@.subrange(0, i as int + 1) =~= d@.subrange(0, i as int).push(d@[i as int]));
        }
        i = i + 1;
    }
    proof {
        assert(d@.subrange(0, n as int) =~= d@);
        if n < 256 {
            assert(buf@ =~= old(buf)@ + enc_str(tag, d@));
        } else {
            assert(buf@ =~= old(buf)@ + enc_str(tag, d@));
        }
    }
    Ok(())
}

/// Append an octet string that is there or not.
pub fn put_opt_str(buf: &mut Vec<u8>, tag: u8, d: Option<&[u8]>) -> (r: Result<(), Error>)
    ensures
        r is Ok <==> match d {
            Some(x) => str_fits(x@),
            None => true,
        },
        r is Ok ==> final(buf)@ == old(buf)@ + enc_opt_str(
            tag,
            match d {
                Some(x) => Some(x@),
                None => None,
            },
        ),
        r is Err ==> r == Err::<(), Error>(ErrorCode::NoSpace) && final(buf)@ == old(buf)@,
{
    match d {
        Some(x) => put_str(buf, tag, x),
        None => {
            assert(buf@ =~= old(buf)@ + Seq::<u8>::empty());
            Ok(())
        },
    }
}

/// Append a two-byte unsigned integer.
pub fn put_u16(buf: &mut Vec<u8>, tag: u8, v: u16)
    ensures
        final(buf)@ == old(buf)@ + enc_u16(tag, v),
{
    buf.push(TLV_U16);
    buf.push(tag);
    buf.push((v % 256) as u8);
    buf.push((v / 256) as u8);
    assert(buf@ =~= old(buf)@ + enc_u16(tag, v));
}

/// The control byte and tag of the element at `pos`, if two bytes are left.
pub fn peek(b: &[u8], pos: usize) -> (r: Option<(u8, u8)>)
    ensures
        r is Some <==> pos + 2 <= b@.len(),
        r is Some ==> r->Some_0.0 == b@[pos as int] && r->Some_0.1 == b@[pos + 1],
{
    if pos < b.len() && b.len() - pos >= 2 {
        Some((b[pos], b[pos + 1]))
    } else {
        None
    }
}

/// Read the byte `c` at `pos`.
pub fn get_byte(b: &[u8], pos: usize, c: u8) -> (r: Result<usize, Error>)
    ensures
        r is Ok <==> pos < b@.len() && b@[pos as int] == c,
        r is Ok ==> r->Ok_0 == pos + 1,
        r is Err ==> r == Err::<usize, Error>(ErrorCode::InvalidData),
{
    if pos < b.len() && b[pos] == c {
        Ok(pos + 1)
    } else {
        Err(ErrorCode::InvalidData)
    }
}

/// Read an octet string with tag `tag` at `pos`; returns it and the position
/// after it.
pub fn get_str(b: &[u8], pos: usize, tag: u8) -> (r: Result<(Vec<u8>, usize), Error>)
    ensures
        r is Ok ==> {
            let (d, p) = r->Ok_0;
            &&& pos <= p <= b@.len()
            &&& b@.subrange(pos as int, p as int) == enc_str(tag, d@)
            &&& str_fits(d@)
        },
        r is Err ==> r == Err::<(Vec<u8>, usize), Error>(ErrorCode::InvalidData),
        forall|d: Seq<u8>| #[trigger] str_at(b@, pos as int, tag, d) ==> r is Ok && r->Ok_0.0@ == d
            && r->Ok_0.1 == pos + enc_str(tag, d).len(),
{
    proof {
        assert forall|d: Seq<u8>| #[trigger] str_at(b@, pos as int, tag, d) implies {
            let e = enc_str(tag, d);
            &&& b@[pos as int] == e[0]
            &&& b@[pos + 1] == tag
            &&& b@[pos + 2] == e[2]
            &&& d.len() >= 256 ==> b@[pos + 3] == e[3]
        } by {
            let e = enc_str(tag, d);
            assert(b@.subrange(pos as int, pos + e.len())[0] == e[0]);
            assert(b@.subrange(pos as int, pos + e.len())[1] == e[1]);
            assert(b@.subrange(pos as int, pos + e.len())[2] == e[2]);
            if d.len() >= 256 {
                assert(b@.subrange(pos as int, pos + e.len())[3] == e[3]);
            }
        }
    }
    if pos >= b.len() || b.len() - pos < 3 || b[pos + 1] != tag {
        return Err(ErrorCode::InvalidData);
    }
    let c = b[pos];
    if c != TLV_STR8 && (c != TLV_STR16 || b.len() - pos < 4) {
        return Err(ErrorCode::InvalidData);
    }
    let n: usize = if c == TLV_STR8 {
        b[pos + 2] as usize
    } else {
        b[pos + 2] as usize + 256 * (b[pos + 3] as usize)
    };
    if c == TLV_STR16 && n < 256 {
        return Err(ErrorCode::InvalidData);
    }
    let start: usize = if c == TLV_STR8 {
        pos + 3
    } else {
        pos + 4
    };
    assert(start <= b@.len());
    if b.len() - start < n {
        return Err(ErrorCode::InvalidData);
    }
    assert(start + n <= b@.len());
    let mut d: Vec<u8> = Vec::new();
    let mut i: usize = 0;
    let len = b.len();
    while i < n
        invariant
            len == b@.len(),
            start + n <= len,
            start <= b@.len(),
            i <= n,
            d@ == b@.subrange(start as int, start + i),
        decreases n - i,
    {
        d.push(b[start + i]);
        proof {
            assert(b@.subrange(start as int, start + i + 1) =~= b@.subrange(start as int, start + i).push(
                b@[start + i],
            ));
        }
        i = i + 1;
    }
    let end = start + n;
    proof {
        assert forall|dd: Seq<u8>| #[trigger] str_at(b@, pos as int, tag, dd) implies d@ == dd && end == pos
            + enc_str(tag, dd).len() by {
            let e = enc_str(tag, dd);
            if dd.len() < 256 {
                assert(n == dd.len());
            } else {
                assert(b@[pos + 2] == (dd.len() % 256) as u8);
                assert(b@[pos + 3] == (dd.len() / 256) as u8);
                assert(n == dd.len());
            }
            assert forall|k: int| 0 <= k < dd.len() implies d@[k] == dd[k] by {
                assert(b@.subrange(pos as int, pos + e.len())[start - pos + k] == e[start - pos + k]);
            }
            assert(d@ =~= dd);
        }
        let hd = b@.subrange(pos as int, start as int);
        assert(b@.subrange(pos as int, end as int) =~= hd + d@);
        if c == TLV_STR8 {
            assert(hd =~= seq![TLV_STR8, tag, n as u8]);
        } else {
            assert(b@[pos + 2] == (n % 256) as u8);
            assert(b@[pos + 3] == (n / 256) as u8);
            assert(hd =~= seq![TLV_STR16, tag, (n % 256) as u8, (n / 256) as u8]);
        }
    }
    Ok((d, end))
}

/// Read a two-byte unsigned integer with tag `tag` at `pos`; returns it and
/// the position after it.
pub fn get_u16(b: &[u8], pos: usize, tag: u8) -> (r: Result<(u16, usize), Error>)
    ensures
        r is Ok ==> {
            let (v, p) = r->Ok_0;
            &&& pos <= p <= b@.len()
            &&& b@.subrange(pos as int, p as int) == enc_u16(tag, v)
        },
        r is Err ==> r == Err::<(u16, usize), Error>(ErrorCode::InvalidData),
        forall|v: u16| #[trigger] u16_at(b@, pos as int, tag, v) ==> r == Ok::<(u16, usize), Error>(
            (v, (pos + 4) as usize),
        ),
{
    proof {
        assert forall|v: u16| #[trigger] u16_at(b@, pos as int, tag, v) implies b@[pos as int] == TLV_U16
            && b@[pos + 1] == tag && b@[pos + 2] == (v % 256) as u8 && b@[pos + 3] == (v / 256) as u8 by {
            let e = enc_u16(tag, v);
            assert(b@.subrange(pos as int, pos + 4)[0] == e[0]);
            assert(b@.subrange(pos as int, pos + 4)[1] == e[1]);
            assert(b@.subrange(pos as int, pos + 4)[2] == e[2]);
            assert(b@.subrange(pos as int, pos + 4)[3] == e[3]);
        }
    }
    if pos >= b.len() || b.len() - pos < 4 || b[pos] != TLV_U16 || b[pos + 1] != tag {
        return Err(ErrorCode::InvalidData);
    }
    let v: u16 = b[pos + 2] as u16 + 256 * (b[pos + 3] as u16);
    proof {
        assert(b@.subrange(pos as int, pos + 4) =~= enc_u16(tag, v));
    }
    Ok((v, pos + 4))
}

/// Read an octet string with tag `tag` at `pos` if the next element has that
/// tag; else read nothing.
pub fn get_opt_str(b: &[u8], pos: usize, tag: u8) -> (r: Result<(Option<Vec<u8>>, usize), Error>)
    ensures
        r is Ok ==> {
            let (d, p) = r->Ok_0;
            &&& pos <= p <= b@.len()
            &&& b@.subrange(pos as int, p as int) == enc_opt_str(
                tag,
                match d {
                    Some(x) => Some(x@),
                    None => None,
                },
            )
            &&& d is Some ==> str_fits(d->Some_0@)
        },
        r is Err ==> r == Err::<(Option<Vec<u8>>, usize), Error>(ErrorCode::InvalidData),
        forall|d: Seq<u8>| #[trigger] str_at(b@, pos as int, tag, d) ==> r is Ok && r->Ok_0.0 is Some
            && r->Ok_0.0->Some_0@ == d && r->Ok_0.1 == pos + enc_str(tag, d).len(),
        no_tag_at(b@, pos as int, tag) ==> r is Ok && r->Ok_0.0 is None && r->Ok_0.1 == pos,
{
    proof {
        assert forall|d: Seq<u8>| #[trigger] str_at(b@, pos as int, tag, d) implies pos + 2 <= b@.len()
            && b@[pos + 1] == tag by {
            let e = enc_str(tag, d);
            assert(b@.subrange(pos as int, pos + e.len())[1] == e[1]);
        }
    }
    if pos > b.len() {
        return Err(ErrorCode::InvalidData);
    }
    match peek(b, pos) {
        Some((_, t)) => {
            if t == tag {
                let (d, p) = get_str(b, pos, tag)?;
                Ok((Some(d), p))
            } else {
                assert(b@.subrange(pos as int, pos as int) =~= Seq::<u8>::empty());
                Ok((None, pos))
            }
        },
        None => {
            assert(b@.subrange(pos as int, pos as int) =~= Seq::<u8>::empty());
            Ok((None, pos))
        },
    }
}

} // verus!
