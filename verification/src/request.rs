//! Explicit request parsing.
//!
//! Routing and parameter binding are spelled out on the raw request
//! bytes: the request line is split into method and target, the target
//! into path and query string, and the `name` query parameter is
//! extracted with form-style decoding (`+` for space, `%xx` escapes).
//! The named file is resolved against the base directory with the usual
//! path-join rule: an absolute name replaces the base, anything else is
//! appended after a separator, with no normalization of `..` segments.

use vstd::prelude::*;

verus! {

/// The position of the first byte in `s` equal to `x` or `y`.
pub open spec fn first2(s: Seq<u8>, x: u8, y: u8) -> Option<int>
    decreases s.len(),
{
    if s.len() == 0 {
        None
    } else if s[0] == x || s[0] == y {
        Some(0int)
    } else {
        match first2(s.drop_first(), x, y) {
            Some(i) => Some(i + 1),
            None => None,
        }
    }
}

/// `first2` finds the first hit and nothing earlier.
pub proof fn lemma_first2(s: Seq<u8>, x: u8, y: u8)
    ensures
        match first2(s, x, y) {
            Some(i) => 0 <= i < s.len() && (s[i] == x || s[i] == y) && (forall|j: int|
                0 <= j < i ==> !(s[j] == x || s[j] == y)),
            None => forall|j: int| 0 <= j < s.len() ==> !(s[j] == x || s[j] == y),
        },
    decreases s.len(),
{
    if s.len() == 0 {
    } else if s[0] == x || s[0] == y {
    } else {
        lemma_first2(s.drop_first(), x, y);
        match first2(s.drop_first(), x, y) {
            Some(i) => {
                assert forall|j: int| 0 <= j < i + 1 implies !(s[j] == x || s[j] == y) by {
                    if j > 0 {
                        assert(s.drop_first()[j - 1] == s[j]);
                    }
                }
            },
            None => {
                assert forall|j: int| 0 <= j < s.len() implies !(s[j] == x || s[j] == y) by {
                    if j > 0 {
                        assert(s.drop_first()[j - 1] == s[j]);
                    }
                }
            },
        }
    }
}

/// Scans `v[from..to]` for the first byte equal to `x` or `y`.
pub fn find2(v: &Vec<u8>, from: usize, to: usize, x: u8, y: u8) -> (r: Option<usize>)
    requires
        from <= to <= v@.len(),
    ensures
        ({
            let s = v@.subrange(from as int, to as int);
            &&& match first2(s, x, y) {
                Some(i) => r == Some((from + i) as usize),
                None => r is None,
            }
            &&& r is Some ==> from <= r->Some_0 < to
        }),
{
    let ghost s = v@.subrange(from as int, to as int);
    proof {
        lemma_first2(s, x, y);
    }
    let mut i: usize = from;
    while i < to
        invariant
            from <= i <= to <= v@.len(),
            s == v@.subrange(from as int, to as int),
            forall|j: int| from <= j < i ==> !(v@[j] == x || v@[j] == y),
        decreases to - i,
    {
        let b: u8 = v[i];
        if b == x || b == y {
            proof {
                lemma_first2(s, x, y);
                assert(s[i - from] == v@[i as int]);
                match first2(s, x, y) {
                    Some(k) => {
                        assert(s[k] == v@[from + k]);
                        if k < i - from {
                            assert(!(v@[from + k] == x || v@[from + k] == y));
                            assert(false);
                        }
                        if k > i - from {
                            assert(!(s[i - from] == x || s[i - from] == y));
                            assert(false);
                        }
                    },
                    None => {
                        assert(!(s[i - from] == x || s[i - from] == y));
                        assert(false);
                    },
                }
            }
            return Some(i);
        }
        i = i + 1;
    }
    proof {
        lemma_first2(s, x, y);
        match first2(s, x, y) {
            Some(k) => {
                assert(s[k] == v@[from + k]);
                assert(false);
            },
            None => {},
        }
    }
    None
}

/// Whether `b` is an ASCII hexadecimal digit.
pub open spec fn is_hexb(b: u8) -> bool {
    (0x30 <= b && b <= 0x39) || (0x41 <= b && b <= 0x46) || (0x61 <= b && b <= 0x66)
}

/// The value of the hexadecimal digit `b` (0 for non-digits).
pub open spec fn hexv(b: u8) -> u8 {
    if 0x30 <= b && b <= 0x39 {
        (b - 0x30) as u8
    } else if 0x41 <= b && b <= 0x46 {
        (b - 0x41 + 10) as u8
    } else if 0x61 <= b && b <= 0x66 {
        (b - 0x61 + 10) as u8
    } else {
        0u8
    }
}

/// Form-style decoding of a query component: `+` becomes a space and
/// `%xx` (with two hexadecimal digits) becomes the byte `xx`; a `%` not
/// followed by two such digits stands for itself, as does every other
/// byte.
pub open spec fn pct_decode(s: Seq<u8>) -> Seq<u8>
    decreases s.len(),
{
    if s.len() == 0 {
        Seq::empty()
    } else if s[0] == 0x2b {
        seq![0x20u8] + pct_decode(s.drop_first())
    } else if s[0] == 0x25 && s.len() >= 3 && is_hexb(s[1]) && is_hexb(s[2]) {
        seq![((16 * hexv(s[1]) + hexv(s[2])) as u8)] + pct_decode(
            s.subrange(3, s.len() as int),
        )
    } else {
        seq![s[0]] + pct_decode(s.drop_first())
    }
}

/// The value of `b` as a hexadecimal digit, if it is one.
fn hex_val(b: u8) -> (r: Option<u8>)
    ensures
        r is Some <==> is_hexb(b),
        r is Some ==> r->Some_0 == hexv(b) && r->Some_0 <= 15,
{
    if 0x30 <= b && b <= 0x39 {
        Some(b - 0x30)
    } else if 0x41 <= b && b <= 0x46 {
        Some(b - 0x41 + 10)
    } else if 0x61 <= b && b <= 0x66 {
        Some(b - 0x61 + 10)
    } else {
        None
    }
}

/// Decodes `v[from..to]` as a form-style query component.
pub fn pct_decode_range(v: &Vec<u8>, from: usize, to: usize) -> (r: Vec<u8>)
    requires
        from <= to <= v@.len(),
    ensures
        r@ == pct_decode(v@.subrange(from as int, to as int)),
{
    let ghost s = v@.subrange(from as int, to as int);
    let mut out: Vec<u8> = Vec::new();
    let mut i: usize = from;
    proof {
        assert(s.subrange(0, s.len() as int) =~= s);
        assert(Seq::<u8>::empty() + pct_decode(s) =~= pct_decode(s));
    }
    while i < to
        invariant
            from <= i <= to <= v@.len(),
            s == v@.subrange(from as int, to as int),
            pct_decode(s) == out@ + pct_decode(s.subrange(i - from, s.len() as int)),
        decreases to - i,
    {
        let ghost k = i as int - from as int;
        let ghost rem = s.subrange(k, s.len() as int);
        let ghost out0 = out@;
        proof {
            assert(rem.len() == to - i);
            assert(rem[0] == v@[i as int]);
        }
        let b: u8 = v[i];
        if b == 0x2b {
            out.push(0x20);
            proof {
                assert(rem.drop_first() =~= s.subrange(k + 1, s.len() as int));
                assert(pct_decode(rem) == seq![0x20u8] + pct_decode(rem.drop_first()));
                assert((out0 + seq![0x20u8]) + pct_decode(rem.drop_first()) =~= out0 + (
                seq![0x20u8] + pct_decode(rem.drop_first())));
            }
            i = i + 1;
        } else if b == 0x25 && to - i >= 3 {
            proof {
                assert(rem[1] == v@[i as int + 1]);
                assert(rem[2] == v@[i as int + 2]);
            }
            let h1 = hex_val(v[i + 1]);
            let h2 = hex_val(v[i + 2]);
            match (h1, h2) {
                (Some(a), Some(c)) => {
                    let decoded: u8 = 16 * a + c;
                    out.push(decoded);
                    proof {
                        let tail = s.subrange(k + 3, s.len() as int);
                        assert(rem.subrange(3, rem.len() as int) =~= tail);
                        assert(pct_decode(rem) == seq![decoded] + pct_decode(tail));
                        assert((out0 + seq![decoded]) + pct_decode(tail) =~= out0 + (
                        seq![decoded] + pct_decode(tail)));
                    }
                    i = i + 3;
                },
                _ => {
                    out.push(b);
                    proof {
                        assert(rem.drop_first() =~= s.subrange(k + 1, s.len() as int));
                        assert(pct_decode(rem) == seq![rem[0]] + pct_decode(
                            rem.drop_first(),
                        ));
                        assert((out0 + seq![rem[0]]) + pct_decode(rem.drop_first()) =~=
                        out0 + (seq![rem[0]] + pct_decode(rem.drop_first())));
                    }
                    i = i + 1;
                },
            }
        } else {
            out.push(b);
            proof {
                assert(rem.drop_first() =~= s.subrange(k + 1, s.len() as int));
                assert(pct_decode(rem) == seq![rem[0]] + pct_decode(rem.drop_first()));
                assert((out0 + seq![rem[0]]) + pct_decode(rem.drop_first()) =~= out0 + (
                seq![rem[0]] + pct_decode(rem.drop_first())));
            }
            i = i + 1;
        }
    }
    proof {
        assert(s.subrange(s.len() as int, s.len() as int) =~= Seq::<u8>::empty());
        assert(out@ + Seq::<u8>::empty() =~= out@);
    }
    out
}

/// The bytes of the query key `name`.
pub open spec fn name_token() -> Seq<u8> {
    seq![0x6eu8, 0x61u8, 0x6du8, 0x65u8]
}

/// Where the first segment of the query string ends (the first `&`, or
/// the end of the string).
pub open spec fn seg_end_of(q: Seq<u8>) -> int {
    match first2(q, 0x26, 0x26) {
        Some(i) => i,
        None => q.len() as int,
    }
}

/// The decoded key of one `key=value` segment (the whole segment when it
/// has no `=`).
pub open spec fn pair_key(seg: Seq<u8>) -> Seq<u8> {
    match first2(seg, 0x3d, 0x3d) {
        Some(i) => pct_decode(seg.subrange(0, i)),
        None => pct_decode(seg),
    }
}

/// The decoded value of one `key=value` segment (empty when it has no
/// `=`).
pub open spec fn pair_val(seg: Seq<u8>) -> Seq<u8> {
    match first2(seg, 0x3d, 0x3d) {
        Some(i) => pct_decode(seg.subrange(i + 1, seg.len() as int)),
        None => Seq::empty(),
    }
}

/// The decoded value of the first `name` parameter of the query string,
/// if there is one.
pub open spec fn find_name(q: Seq<u8>) -> Option<Seq<u8>>
    decreases q.len(),
{
    let e = seg_end_of(q);
    if !(0 <= e <= q.len()) {
        None
    } else {
        let seg = q.subrange(0, e);
        if pair_key(seg) == name_token() {
            Some(pair_val(seg))
        } else if e < q.len() {
            find_name(q.subrange(e + 1, q.len() as int))
        } else {
            None
        }
    }
}

/// Extracts the first `name` parameter from the query string held in
/// `v[from..to]`.
pub fn find_name_range(v: &Vec<u8>, from: usize, to: usize) -> (r: Option<Vec<u8>>)
    requires
        from <= to <= v@.len(),
    ensures
        ({
            let q = v@.subrange(from as int, to as int);
            match find_name(q) {
                Some(val) => r is Some && r->Some_0@ == val,
                None => r is None,
            }
        }),
    decreases to - from,
{
    let ghost q = v@.subrange(from as int, to as int);
    let amp = find2(v, from, to, 0x26, 0x26);
    let seg_end: usize = match amp {
        Some(a) => a,
        None => to,
    };
    let ghost e = seg_end as int - from as int;
    let ghost seg = q.subrange(0, e);
    proof {
        lemma_first2(q, 0x26, 0x26);
        assert(e == seg_end_of(q));
        assert(seg =~= v@.subrange(from as int, seg_end as int));
    }
    let eq = find2(v, from, seg_end, 0x3d, 0x3d);
    let key_end: usize = match eq {
        Some(p) => p,
        None => seg_end,
    };
    proof {
        lemma_first2(seg, 0x3d, 0x3d);
        match first2(seg, 0x3d, 0x3d) {
            Some(p) => {
                assert(seg.subrange(0, p) =~= v@.subrange(from as int, key_end as int));
            },
            None => {},
        }
    }
    let key = pct_decode_range(v, from, key_end);
    proof {
        assert(key@ == pair_key(seg));
    }
    let is_name: bool = key.len() == 4 && key[0] == 0x6e && key[1]
        == 0x61 && key[2] == 0x6d && key[3] == 0x65;
    proof {
        if is_name {
            assert(key@ =~= name_token());
        } else {
            if key@ == name_token() {
                assert(key@.len() == 4);
                assert(key@[0] == 0x6e && key@[1] == 0x61 && key@[2] == 0x6d && key@[3]
                    == 0x65);
                assert(false);
            }
        }
    }
    if is_name {
        match eq {
            Some(p) => {
                let val = pct_decode_range(v, p + 1, seg_end);
                proof {
                    assert(seg.subrange(p + 1 - from, seg.len() as int) =~= v@.subrange(
                        p as int + 1,
                        seg_end as int,
                    ));
                    assert(val@ == pair_val(seg));
                }
                Some(val)
            },
            None => {
                proof {
                    assert(pair_val(seg) =~= Seq::<u8>::empty());
                }
                Some(Vec::new())
            },
        }
    } else {
        match amp {
            Some(a) => {
                proof {
                    assert(q.subrange(e + 1, q.len() as int) =~= v@.subrange(
                        a as int + 1,
                        to as int,
                    ));
                }
                find_name_range(v, a + 1, to)
            },
            None => None,
        }
    }
}

/// The path-join rule used for `base` and the decoded `name`: an
/// absolute name replaces the base; otherwise the name is appended after
/// a `/` separator (none added when the base is empty or already ends in
/// one). Nothing is normalized: `..` segments survive as given.
pub open spec fn joined(base: Seq<u8>, rel: Seq<u8>) -> Seq<u8> {
    if rel.len() > 0 && rel[0] == 0x2f {
        rel
    } else if base.len() == 0 {
        rel
    } else if base[base.len() - 1] == 0x2f {
        base + rel
    } else {
        base + seq![0x2fu8] + rel
    }
}

/// Joining never normalizes: whatever name the request carried — parent
/// segments included — survives verbatim at the end of the resolved
/// path, so a name pointing above the base directory resolves outside
/// it.
pub proof fn lemma_join_no_normalization(base: Seq<u8>, rel: Seq<u8>)
    ensures
        joined(base, rel).len() >= rel.len(),
        joined(base, rel).subrange(
            joined(base, rel).len() - rel.len(),
            joined(base, rel).len() as int,
        ) == rel,
{
    let j = joined(base, rel);
    assert(j.subrange(j.len() - rel.len(), j.len() as int) =~= rel);
}

/// Appends every byte of `src`.
fn push_all(out: &mut Vec<u8>, src: &Vec<u8>)
    ensures
        final(out)@ == old(out)@ + src@,
{
    let n: usize = src.len();
    let mut i: usize = 0;
    proof {
        assert(old(out)@ + src@.subrange(0, 0) =~= old(out)@);
    }
    while i < n
        invariant
            n == src@.len(),
            i <= n,
            out@ == old(out)@ + src@.subrange(0, i as int),
        decreases n - i,
    {
        let b: u8 = src[i];
        out.push(b);
        proof {
            assert((old(out)@ + src@.subrange(0, i as int)).push(src@[i as int]) =~= old(
                out,
            )@ + src@.subrange(0, i as int + 1));
        }
        i = i + 1;
    }
    proof {
        assert(src@.subrange(0, n as int) =~= src@);
    }
}

/// Joins the base directory and a decoded name into the path handed to
/// the filesystem.
pub fn join_path(base: &Vec<u8>, rel: &Vec<u8>) -> (r: Vec<u8>)
    ensures
        r@ == joined(base@, rel@),
{
    if rel.len() > 0 && rel[0] == 0x2f {
        let mut out: Vec<u8> = Vec::new();
        push_all(&mut out, rel);
        proof {
            assert(Seq::<u8>::empty() + rel@ =~= rel@);
        }
        out
    } else if base.len() == 0 {
        let mut out: Vec<u8> = Vec::new();
        push_all(&mut out, rel);
        proof {
            assert(Seq::<u8>::empty() + rel@ =~= rel@);
        }
        out
    } else {
        let mut out: Vec<u8> = Vec::new();
        push_all(&mut out, base);
        let last: u8 = base[base.len() - 1];
        if last != 0x2f {
            out.push(0x2f);
            push_all(&mut out, rel);
            proof {
                assert(((Seq::<u8>::empty() + base@).push(0x2fu8)) + rel@ =~= base@
                    + seq![0x2fu8] + rel@);
            }
            out
        } else {
            push_all(&mut out, rel);
            proof {
                assert((Seq::<u8>::empty() + base@) + rel@ =~= base@ + rel@);
            }
            out
        }
    }
}

/// Where the request line ends: the first carriage return or line feed,
/// or the end of the buffer.
pub open spec fn eol_at(buf: Seq<u8>) -> int {
    match first2(buf, 0x0d, 0x0a) {
        Some(i) => i,
        None => buf.len() as int,
    }
}

/// The request line itself.
pub open spec fn line_of(buf: Seq<u8>) -> Seq<u8> {
    buf.subrange(0, eol_at(buf))
}

/// Whether the request line has a space at all; without one there is no
/// method/target split and the request is malformed.
pub open spec fn has_space(buf: Seq<u8>) -> bool {
    first2(line_of(buf), 0x20, 0x20) is Some
}

/// The method token of the request line.
pub open spec fn method_of(buf: Seq<u8>) -> Seq<u8> {
    line_of(buf).subrange(0, first2(line_of(buf), 0x20, 0x20)->Some_0)
}

/// The request line after the first space.
pub open spec fn rest_of(buf: Seq<u8>) -> Seq<u8> {
    let l = line_of(buf);
    l.subrange(first2(l, 0x20, 0x20)->Some_0 + 1, l.len() as int)
}

/// The request target: what stands between the first space and the next
/// one (or the end of the line).
pub open spec fn target_of(buf: Seq<u8>) -> Seq<u8> {
    let r = rest_of(buf);
    match first2(r, 0x20, 0x20) {
        Some(i) => r.subrange(0, i),
        None => r,
    }
}

/// The path part of the target, before any `?`.
pub open spec fn path_of(buf: Seq<u8>) -> Seq<u8> {
    let t = target_of(buf);
    match first2(t, 0x3f, 0x3f) {
        Some(i) => t.subrange(0, i),
        None => t,
    }
}

/// The query part of the target, after the first `?` (empty without
/// one).
pub open spec fn query_of(buf: Seq<u8>) -> Seq<u8> {
    let t = target_of(buf);
    match first2(t, 0x3f, 0x3f) {
        Some(i) => t.subrange(i + 1, t.len() as int),
        None => Seq::empty(),
    }
}

/// The bytes of the method `GET`.
pub open spec fn get_token() -> Seq<u8> {
    seq![0x47u8, 0x45u8, 0x54u8]
}

/// The bytes of the route path `/list`.
pub open spec fn list_route() -> Seq<u8> {
    seq![0x2fu8, 0x6cu8, 0x69u8, 0x73u8, 0x74u8]
}

/// The bytes of the route path `/file`.
pub open spec fn file_route() -> Seq<u8> {
    seq![0x2fu8, 0x66u8, 0x69u8, 0x6cu8, 0x65u8]
}

} // verus!
