//! Names of the files that a render writes and the labels of its progress
//! display: decimal numbers, zero padded as a format width `{:0>w}` pads them.
use vstd::prelude::*;

verus! {

/// The character of decimal digit `d`, for `d < 10`.
pub open spec fn digit_char(d: nat) -> char {
    seq!['0', '1', '2', '3', '4', '5', '6', '7', '8', '9'][d as int]
}

/// Decimal notation of `n`, most significant digit first, no leading zero.
pub open spec fn decimal(n: nat) -> Seq<char>
    decreases n,
{
    if n < 10 {
        seq![digit_char(n)]
    } else {
        decimal(n / 10).push(digit_char(n % 10))
    }
}

/// Decimal notation of `v`, with a leading `-` when `v` is negative.
pub open spec fn signed_decimal(v: int) -> Seq<char> {
    if v < 0 {
        seq!['-'] + decimal((-v) as nat)
    } else {
        decimal(v as nat)
    }
}

/// `s` with `'0'`s put in front of it up to `width` characters; `s` itself
/// when it is that long already.
pub open spec fn pad_zeros(s: Seq<char>, width: nat) -> Seq<char> {
    if s.len() >= width {
        s
    } else {
        Seq::new((width - s.len()) as nat, |i: int| '0') + s
    }
}

/// The decimal notation of `n` takes at most `n + 1` characters, and at
/// most `n` once `n` is positive.
proof fn lemma_decimal_len(n: nat)
    ensures
        decimal(n).len() <= n + 1,
        n >= 1 ==> decimal(n).len() <= n,
    decreases n,
{
    if n >= 10 {
        lemma_decimal_len(n / 10);
    }
}

/// The one-character string of digit `d`.
fn digit_str(d: u64) -> (r: &'static str)
    requires
        d < 10,
    ensures
        r@ == seq![digit_char(d as nat)],
{
    proof {
        reveal_strlit("0");
        reveal_strlit("1");
        reveal_strlit("2");
        reveal_strlit("3");
        reveal_strlit("4");
        reveal_strlit("5");
        reveal_strlit("6");
        reveal_strlit("7");
        reveal_strlit("8");
        reveal_strlit("9");
    }
    let r = if d == 0 {
        "0"
    } else if d == 1 {
        "1"
    } else if d == 2 {
        "2"
    } else if d == 3 {
        "3"
    } else if d == 4 {
        "4"
    } else if d == 5 {
        "5"
    } else if d == 6 {
        "6"
    } else if d == 7 {
        "7"
    } else if d == 8 {
        "8"
    } else {
        "9"
    };
    assert(r@ =~= seq![digit_char(d as nat)]);
    r
}

/// Number of characters in the decimal notation of `v`.
pub fn decimal_len(v: u64) -> (r: u64)
    ensures
        r == decimal(v as nat).len(),
    decreases v,
{
    if v < 10 {
        1
    } else {
        proof {
            lemma_decimal_len((v / 10) as nat);
        }
        decimal_len(v / 10) + 1
    }
}

/// Appends the decimal notation of `v` to `s`.
pub fn push_decimal(s: &mut String, v: u64)
    ensures
        final(s)@ == old(s)@ + decimal(v as nat),
    decreases v,
{
    if v >= 10 {
        push_decimal(s, v / 10);
    }
    s.append(digit_str(v % 10));
    assert(s@ =~= old(s)@ + decimal(v as nat));
}

/// Appends the decimal notation of `v`, with a leading `-` when it is
/// negative, to `s`.
pub fn push_signed_decimal(s: &mut String, v: i64)
    ensures
        final(s)@ == old(s)@ + signed_decimal(v as int),
{
    if v < 0 {
        proof {
            reveal_strlit("-");
        }
        s.append("-");
        let magnitude: u64 = if v == i64::MIN {
            9223372036854775808u64
        } else {
            (-v) as u64
        };
        push_decimal(s, magnitude);
        assert(s@ =~= old(s)@ + signed_decimal(v as int));
    } else {
        push_decimal(s, v as u64);
    }
}

/// Appends the decimal notation of `v` to `s`, zero padded to `width`
/// characters.
pub fn push_padded(s: &mut String, v: u64, width: u64)
    ensures
        final(s)@ == old(s)@ + pad_zeros(decimal(v as nat), width as nat),
{
    let ghost start = s@;
    let len: u64 = decimal_len(v);
    let mut i: u64 = len;
    while i < width
        invariant
            len == decimal(v as nat).len(),
            len <= i,
            i <= width || i == len,
            s@ == start + Seq::new((i - len) as nat, |k: int| '0'),
        decreases width - i,
    {
        s.append("0");
        proof {
            reveal_strlit("0");
        }
        assert(s@ =~= start + Seq::new((i + 1 - len) as nat, |k: int| '0'));
        i = i + 1;
    }
    push_decimal(s, v);
    assert(s@ =~= start + pad_zeros(decimal(v as nat), width as nat));
}

/// A local date and time of day, as a calendar shows it.
#[derive(Clone, Copy, Debug, PartialEq, Eq, Structural)]
pub struct Timestamp {
    pub year: i32,
    pub month: u32,
    pub day: u32,
    pub hour: u32,
    pub minute: u32,
    pub second: u32,
}

/// `v` in decimal, at least two digits wide.
pub open spec fn two_digits(v: nat) -> Seq<char> {
    pad_zeros(decimal(v), 2)
}

/// `YYYY-MM-DD_hhmmss_out.<ext>`: the name of an output file stamped with
/// the time `t` at which it was written.
pub open spec fn stamped_name(t: Timestamp, ext: Seq<char>) -> Seq<char> {
    signed_decimal(t.year as int) + seq!['-'] + two_digits(t.month as nat) + seq!['-']
        + two_digits(t.day as nat) + seq!['_'] + two_digits(t.hour as nat) + two_digits(
        t.minute as nat,
    ) + two_digits(t.second as nat) + seq!['_', 'o', 'u', 't', '.'] + ext
}

/// Name of an output file with extension `ext`: stamped with the time when
/// one is given, `out.<ext>` otherwise.
pub open spec fn output_name(stamp: Option<Timestamp>, ext: Seq<char>) -> Seq<char> {
    match stamp {
        Some(t) => stamped_name(t, ext),
        None => seq!['o', 'u', 't', '.'] + ext,
    }
}

/// The name under which a render is saved: `YYYY-MM-DD_hhmmss_out.<ext>`
/// when a time stamp is given, each field after the year zero padded to two
/// digits, and `out.<ext>` when none is.
pub fn output_file_name(stamp: Option<Timestamp>, ext: &str) -> (r: String)
    ensures
        r@ == output_name(stamp, ext@),
{
    proof {
        reveal_strlit("out.");
        reveal_strlit("-");
        reveal_strlit("_");
        reveal_strlit("_out.");
    }
    let mut s = String::new();
    match stamp {
        Some(t) => {
            push_signed_decimal(&mut s, t.year as i64);
            s.append("-");
            push_padded(&mut s, t.month as u64, 2);
            s.append("-");
            push_padded(&mut s, t.day as u64, 2);
            s.append("_");
            push_padded(&mut s, t.hour as u64, 2);
            push_padded(&mut s, t.minute as u64, 2);
            push_padded(&mut s, t.second as u64, 2);
            s.append("_out.");
        },
        None => {
            s.append("out.");
        },
    }
    s.append(ext);
    assert(s@ =~= output_name(stamp, ext@));
    s
}

/// The label of the progress display while frame `index` (counted from 0)
/// of `total` renders: both numbers zero padded to the width of `total`.
pub open spec fn progress_label_spec(index: nat, total: nat) -> Seq<char> {
    let width = decimal(total).len();
    "Calculating image "@ + pad_zeros(decimal(index + 1), width) + " of "@ + pad_zeros(
        decimal(total),
        width,
    )
}

/// `Calculating image <index + 1> of <total>`, both numbers zero padded to
/// as many digits as `total` has.
pub fn progress_label(index: usize, total: usize) -> (r: String)
    requires
        index < usize::MAX,
    ensures
        r@ == progress_label_spec(index as nat, total as nat),
{
    let width: u64 = decimal_len(total as u64);
    let mut s = String::new();
    s.append("Calculating image ");
    push_padded(&mut s, index as u64 + 1, width);
    s.append(" of ");
    push_padded(&mut s, total as u64, width);
    assert(s@ =~= progress_label_spec(index as nat, total as nat));
    s
}

} // verus!
