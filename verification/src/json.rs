//! Explicit JSON encoding for listings.
//!
//! A listing is returned as a JSON array of `{"name": ..., "size": ...}`
//! objects. The encoding is spelled out here rather than delegated: a
//! descriptor's name is escaped character by character and its size is
//! written in decimal, and the exec functions are proved to produce
//! exactly the sequences the spec functions describe.

use vstd::prelude::*;

use crate::entries::BlobDesc;

verus! {

/// The decimal digit character for `d` (meaningful for `d < 10`).
pub open spec fn digit_rep(d: nat) -> Seq<char> {
    if d == 0 {
        "0"@
    } else if d == 1 {
        "1"@
    } else if d == 2 {
        "2"@
    } else if d == 3 {
        "3"@
    } else if d == 4 {
        "4"@
    } else if d == 5 {
        "5"@
    } else if d == 6 {
        "6"@
    } else if d == 7 {
        "7"@
    } else if d == 8 {
        "8"@
    } else {
        "9"@
    }
}

/// The decimal rendering of `n`, most significant digit first, with no
/// leading zeros (and `0` itself rendered as "0").
pub open spec fn dec_seq(n: nat) -> Seq<char>
    decreases n,
{
    if n < 10 {
        digit_rep(n)
    } else {
        dec_seq(n / 10) + digit_rep(n % 10)
    }
}

/// The characters of a digit stack read from the top: digits are pushed
/// least significant first, so reading from the last one restores the
/// usual order.
spec fn chars_of_digits(ds: Seq<u64>) -> Seq<char>
    decreases ds.len(),
{
    if ds.len() == 0 {
        Seq::empty()
    } else {
        digit_rep(ds.last() as nat) + chars_of_digits(ds.drop_last())
    }
}

/// How one character is written inside a JSON string: quotes and
/// backslashes are escaped, control characters get their short escape or
/// a `\u00..` form, and everything else stands for itself.
pub open spec fn esc_char(c: char) -> Seq<char> {
    if c == '"' {
        "\\\""@
    } else if c == '\\' {
        "\\\\"@
    } else if c == '\x08' {
        "\\b"@
    } else if c == '\x09' {
        "\\t"@
    } else if c == '\x0a' {
        "\\n"@
    } else if c == '\x0c' {
        "\\f"@
    } else if c == '\x0d' {
        "\\r"@
    } else if c == '\x00' {
        "\\u0000"@
    } else if c == '\x01' {
        "\\u0001"@
    } else if c == '\x02' {
        "\\u0002"@
    } else if c == '\x03' {
        "\\u0003"@
    } else if c == '\x04' {
        "\\u0004"@
    } else if c == '\x05' {
        "\\u0005"@
    } else if c == '\x06' {
        "\\u0006"@
    } else if c == '\x07' {
        "\\u0007"@
    } else if c == '\x0b' {
        "\\u000b"@
    } else if c == '\x0e' {
        "\\u000e"@
    } else if c == '\x0f' {
        "\\u000f"@
    } else if c == '\x10' {
        "\\u0010"@
    } else if c == '\x11' {
        "\\u0011"@
    } else if c == '\x12' {
        "\\u0012"@
    } else if c == '\x13' {
        "\\u0013"@
    } else if c == '\x14' {
        "\\u0014"@
    } else if c == '\x15' {
        "\\u0015"@
    } else if c == '\x16' {
        "\\u0016"@
    } else if c == '\x17' {
        "\\u0017"@
    } else if c == '\x18' {
        "\\u0018"@
    } else if c == '\x19' {
        "\\u0019"@
    } else if c == '\x1a' {
        "\\u001a"@
    } else if c == '\x1b' {
        "\\u001b"@
    } else if c == '\x1c' {
        "\\u001c"@
    } else if c == '\x1d' {
        "\\u001d"@
    } else if c == '\x1e' {
        "\\u001e"@
    } else if c == '\x1f' {
        "\\u001f"@
    } else {
        seq![c]
    }
}

/// The escaped form of a whole string.
pub open spec fn esc_seq(s: Seq<char>) -> Seq<char>
    decreases s.len(),
{
    if s.len() == 0 {
        Seq::empty()
    } else {
        esc_seq(s.drop_last()) + esc_char(s.last())
    }
}

/// The JSON object for one descriptor.
pub open spec fn json_of_desc(d: BlobDesc) -> Seq<char> {
    "{\"name\":\""@ + esc_seq(d.name@) + "\",\"size\":"@ + dec_seq(d.size as nat) + "}"@
}

/// The comma-separated members of a listing array.
pub open spec fn json_items(s: Seq<BlobDesc>) -> Seq<char>
    decreases s.len(),
{
    if s.len() == 0 {
        Seq::empty()
    } else if s.len() == 1 {
        json_of_desc(s[0])
    } else {
        json_items(s.drop_last()) + ","@ + json_of_desc(s.last())
    }
}

/// The JSON array for a whole listing.
pub open spec fn json_of_list(s: Seq<BlobDesc>) -> Seq<char> {
    "["@ + json_items(s) + "]"@
}

/// The escape, if any, that one character needs inside a JSON string;
/// `None` means the character stands for itself.
fn esc_str(c: char) -> (r: Option<&'static str>)
    ensures
        r is Some ==> r->Some_0@ == esc_char(c),
        r is None ==> esc_char(c) == seq![c],
{
    match c {
        '"' => Some("\\\""),
        '\\' => Some("\\\\"),
        '\x08' => Some("\\b"),
        '\x09' => Some("\\t"),
        '\x0a' => Some("\\n"),
        '\x0c' => Some("\\f"),
        '\x0d' => Some("\\r"),
        '\x00' => Some("\\u0000"),
        '\x01' => Some("\\u0001"),
        '\x02' => Some("\\u0002"),
        '\x03' => Some("\\u0003"),
        '\x04' => Some("\\u0004"),
        '\x05' => Some("\\u0005"),
        '\x06' => Some("\\u0006"),
        '\x07' => Some("\\u0007"),
        '\x0b' => Some("\\u000b"),
        '\x0e' => Some("\\u000e"),
        '\x0f' => Some("\\u000f"),
        '\x10' => Some("\\u0010"),
        '\x11' => Some("\\u0011"),
        '\x12' => Some("\\u0012"),
        '\x13' => Some("\\u0013"),
        '\x14' => Some("\\u0014"),
        '\x15' => Some("\\u0015"),
        '\x16' => Some("\\u0016"),
        '\x17' => Some("\\u0017"),
        '\x18' => Some("\\u0018"),
        '\x19' => Some("\\u0019"),
        '\x1a' => Some("\\u001a"),
        '\x1b' => Some("\\u001b"),
        '\x1c' => Some("\\u001c"),
        '\x1d' => Some("\\u001d"),
        '\x1e' => Some("\\u001e"),
        '\x1f' => Some("\\u001f"),
        _ => None,
    }
}

/// The one decimal digit character for `d`.
fn digit_str(d: u64) -> (r: &'static str)
    requires
        d < 10,
    ensures
        r@ == digit_rep(d as nat),
{
    match d {
        0 => "0",
        1 => "1",
        2 => "2",
        3 => "3",
        4 => "4",
        5 => "5",
        6 => "6",
        7 => "7",
        8 => "8",
        _ => "9",
    }
}

/// Appends the decimal rendering of `n`.
pub fn append_dec(out: &mut String, n: u64)
    ensures
        final(out)@ == old(out)@ + dec_seq(n as nat),
{
    let mut digits: Vec<u64> = Vec::new();
    digits.push(n % 10);
    let mut m: u64 = n / 10;
    proof {
        assert(digits@.last() == n % 10);
        assert(digits@.drop_last() =~= Seq::<u64>::empty());
        assert(chars_of_digits(Seq::<u64>::empty()) == Seq::<char>::empty());
        assert(chars_of_digits(digits@) == digit_rep((n % 10) as nat)
            + Seq::<char>::empty());
        assert(digit_rep((n % 10) as nat) + Seq::<char>::empty() =~= digit_rep(
            (n % 10) as nat,
        ));
        if n < 10 {
            assert(n % 10 == n);
            assert(dec_seq(n as nat) == digit_rep(n as nat));
        } else {
            assert(dec_seq(n as nat) == dec_seq((n / 10) as nat) + digit_rep(
                (n % 10) as nat,
            ));
        }
    }
    while m != 0
        invariant
            digits@.len() >= 1,
            forall|t: int| 0 <= t < digits@.len() ==> digits@[t] < 10,
            dec_seq(n as nat) == (if m == 0 {
                chars_of_digits(digits@)
            } else {
                dec_seq(m as nat) + chars_of_digits(digits@)
            }),
        decreases m,
    {
        let ghost m0 = m;
        let ghost ds0 = digits@;
        digits.push(m % 10);
        m = m / 10;
        proof {
            assert(digits@.drop_last() =~= ds0);
            assert(chars_of_digits(digits@) == digit_rep((m0 % 10) as nat)
                + chars_of_digits(ds0));
            if m != 0 {
                assert((dec_seq(m as nat) + digit_rep((m0 % 10) as nat))
                    + chars_of_digits(ds0) =~= dec_seq(m as nat) + (digit_rep(
                    (m0 % 10) as nat,
                ) + chars_of_digits(ds0)));
            }
        }
    }
    let mut j: usize = digits.len();
    proof {
        assert(digits@.subrange(0, j as int) =~= digits@);
    }
    while j > 0
        invariant
            j <= digits@.len(),
            forall|t: int| 0 <= t < digits@.len() ==> digits@[t] < 10,
            dec_seq(n as nat) == chars_of_digits(digits@),
            out@ + chars_of_digits(digits@.subrange(0, j as int)) == old(out)@ + dec_seq(
                n as nat,
            ),
        decreases j,
    {
        j = j - 1;
        let d: u64 = digits[j];
        let t = digit_str(d);
        let ghost pre = out@;
        out.append(t);
        proof {
            let subj1 = digits@.subrange(0, j as int + 1);
            assert(subj1.drop_last() =~= digits@.subrange(0, j as int));
            assert(subj1.last() == digits@[j as int]);
            assert(chars_of_digits(subj1) == digit_rep(d as nat) + chars_of_digits(
                digits@.subrange(0, j as int),
            ));
            assert((pre + digit_rep(d as nat)) + chars_of_digits(
                digits@.subrange(0, j as int),
            ) =~= pre + (digit_rep(d as nat) + chars_of_digits(
                digits@.subrange(0, j as int),
            )));
        }
    }
    proof {
        assert(digits@.subrange(0, 0) =~= Seq::<u64>::empty());
        assert(out@ + Seq::<char>::empty() =~= out@);
    }
}

/// The decimal rendering of `n` as a fresh string.
pub fn u64_to_dec(n: u64) -> (r: String)
    ensures
        r@ == dec_seq(n as nat),
{
    let mut out = String::new();
    append_dec(&mut out, n);
    proof {
        assert(Seq::<char>::empty() + dec_seq(n as nat) =~= dec_seq(n as nat));
    }
    out
}

/// Appends the escaped form of `s`, as it stands between the quotes of a
/// JSON string.
pub fn append_escaped(out: &mut String, s: &str)
    ensures
        final(out)@ == old(out)@ + esc_seq(s@),
{
    let n: usize = s.unicode_len();
    let mut i: usize = 0;
    proof {
        assert(s@.subrange(0, 0) =~= Seq::<char>::empty());
        assert(old(out)@ + Seq::<char>::empty() =~= old(out)@);
    }
    while i < n
        invariant
            n == s@.len(),
            i <= n,
            out@ == old(out)@ + esc_seq(s@.subrange(0, i as int)),
        decreases n - i,
    {
        let ghost pre = out@;
        let c = s.get_char(i);
        match esc_str(c) {
            Some(t) => {
                out.append(t);
            },
            None => {
                let piece = s.substring_char(i, i + 1);
                proof {
                    assert(piece@ =~= seq![c]);
                }
                out.append(piece);
            },
        }
        proof {
            let sub1 = s@.subrange(0, i as int + 1);
            assert(sub1.drop_last() =~= s@.subrange(0, i as int));
            assert(sub1.last() == c);
            assert(esc_seq(sub1) == esc_seq(s@.subrange(0, i as int)) + esc_char(c));
            assert((old(out)@ + esc_seq(s@.subrange(0, i as int))) + esc_char(c) =~= old(
                out,
            )@ + (esc_seq(s@.subrange(0, i as int)) + esc_char(c)));
        }
        i = i + 1;
    }
    proof {
        assert(s@.subrange(0, s@.len() as int) =~= s@);
    }
}

/// Appends the JSON object for one descriptor.
pub fn append_desc(out: &mut String, d: &BlobDesc)
    ensures
        final(out)@ == old(out)@ + json_of_desc(*d),
{
    out.append("{\"name\":\"");
    append_escaped(out, d.name.as_str());
    out.append("\",\"size\":");
    append_dec(out, d.size);
    out.append("}");
    proof {
        assert(out@ =~= old(out)@ + json_of_desc(*d));
    }
}

/// Renders a whole listing as its JSON array.
pub fn render_list(blobs: &Vec<BlobDesc>) -> (r: String)
    ensures
        r@ == json_of_list(blobs@),
{
    let mut out = String::from_str("[");
    let n: usize = blobs.len();
    let mut i: usize = 0;
    proof {
        assert(out@ + Seq::<char>::empty() =~= out@);
        assert(blobs@.subrange(0, 0) =~= Seq::<BlobDesc>::empty());
    }
    while i < n
        invariant
            n == blobs@.len(),
            i <= n,
            out@ == "["@ + json_items(blobs@.subrange(0, i as int)),
        decreases n - i,
    {
        let ghost pre = out@;
        if i > 0 {
            out.append(",");
        }
        append_desc(&mut out, &blobs[i]);
        proof {
            let sub0 = blobs@.subrange(0, i as int);
            let sub1 = blobs@.subrange(0, i as int + 1);
            assert(sub1.drop_last() =~= sub0);
            assert(sub1.last() == blobs@[i as int]);
            if i == 0 {
                assert(json_items(sub1) == json_of_desc(blobs@[0]));
                assert(pre + json_items(sub0) =~= pre);
                assert(out@ =~= "["@ + json_items(sub1));
            } else {
                assert(json_items(sub1) == json_items(sub0) + ","@ + json_of_desc(
                    blobs@[i as int],
                ));
                assert(out@ =~= "["@ + json_items(sub1));
            }
        }
        i = i + 1;
    }
    out.append("]");
    proof {
        assert(blobs@.subrange(0, n as int) =~= blobs@);
        assert(out@ =~= json_of_list(blobs@));
    }
    out
}

} // verus!
