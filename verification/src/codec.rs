//! Text encoding of stats and records.
//!
//! Stats are centi-unit fixed-point integers; their text form is the plain
//! decimal value with at most two fractional digits and no trailing zero,
//! so `1000` prints as `"10"`, `995` as `"9.95"`, and `-5` as `"-0.05"`.
//! Parsing accepts an optional sign, a digit run, and an optional point with
//! one or two fractional digits; anything else, and any magnitude outside
//! the `i64` range, is rejected.

use vstd::arithmetic::div_mod::lemma_fundamental_div_mod;
use vstd::prelude::*;
use vstd::string::{StrSliceExecFns, StringExecFns};

use crate::tamo::{Tamo, TamoRoom};

verus! {

// ---------------------------------------------------------------------------
// Digits
// ---------------------------------------------------------------------------

/// The decimal digit character for `d`.
pub open spec fn spec_digit(d: int) -> char {
    if d == 0 {
        '0'
    } else if d == 1 {
        '1'
    } else if d == 2 {
        '2'
    } else if d == 3 {
        '3'
    } else if d == 4 {
        '4'
    } else if d == 5 {
        '5'
    } else if d == 6 {
        '6'
    } else if d == 7 {
        '7'
    } else if d == 8 {
        '8'
    } else {
        '9'
    }
}

pub open spec fn spec_is_digit(c: char) -> bool {
    48 <= c as int && c as int <= 57
}

/// Numeric value of a digit character.
pub open spec fn spec_digit_val(c: char) -> int {
    c as int - 48
}

pub open spec fn spec_all_digits(s: Seq<char>) -> bool {
    forall|i: int| 0 <= i < s.len() ==> spec_is_digit(#[trigger] s[i])
}

/// The decimal digit string of `n`, most significant digit first.
pub open spec fn spec_dec(n: int) -> Seq<char>
    decreases n,
{
    if n < 10 {
        seq![spec_digit(n)]
    } else {
        spec_dec(n / 10) + seq![spec_digit(n % 10)]
    }
}

/// Value of a digit string scanned left to right starting from `acc`.
pub open spec fn spec_dec_val_acc(s: Seq<char>, acc: int) -> int
    decreases s.len(),
{
    if s.len() == 0 {
        acc
    } else {
        spec_dec_val_acc(s.skip(1), acc * 10 + spec_digit_val(s[0]))
    }
}

/// Value of a digit string.
pub open spec fn spec_dec_val(s: Seq<char>) -> int {
    spec_dec_val_acc(s, 0)
}

/// Scanning a concatenation scans the pieces in order.
pub proof fn lemma_dec_val_acc_concat(u: Seq<char>, v: Seq<char>, acc: int)
    ensures
        spec_dec_val_acc(u + v, acc) == spec_dec_val_acc(v, spec_dec_val_acc(u, acc)),
    decreases u.len(),
{
    if u.len() == 0 {
        assert(u + v =~= v);
    } else {
        assert((u + v).skip(1) =~= u.skip(1) + v);
        lemma_dec_val_acc_concat(u.skip(1), v, acc * 10 + spec_digit_val(u[0]));
    }
}

/// Scanning a single character from `acc`.
pub proof fn lemma_dec_val_acc_one(c: char, acc: int)
    ensures
        spec_dec_val_acc(seq![c], acc) == acc * 10 + spec_digit_val(c),
{
    let s = seq![c];
    assert(s.skip(1) =~= Seq::<char>::empty());
    assert(spec_dec_val_acc(s, acc) == spec_dec_val_acc(s.skip(1), acc * 10 + spec_digit_val(c)));
    assert(spec_dec_val_acc(Seq::<char>::empty(), acc * 10 + spec_digit_val(c)) == acc * 10
        + spec_digit_val(c));
}

/// Appending one digit multiplies the value by ten and adds the digit.
pub proof fn lemma_dec_val_acc_snoc(u: Seq<char>, c: char, acc: int)
    ensures
        spec_dec_val_acc(u + seq![c], acc) == spec_dec_val_acc(u, acc) * 10 + spec_digit_val(c),
{
    lemma_dec_val_acc_concat(u, seq![c], acc);
    lemma_dec_val_acc_one(c, spec_dec_val_acc(u, acc));
}

/// Scanning digits never lowers a nonnegative accumulator.
pub proof fn lemma_dec_val_acc_ge(s: Seq<char>, acc: int)
    requires
        spec_all_digits(s),
        acc >= 0,
    ensures
        spec_dec_val_acc(s, acc) >= acc,
    decreases s.len(),
{
    if s.len() > 0 {
        assert(spec_is_digit(s[0]));
        assert(spec_all_digits(s.skip(1))) by {
            assert forall|i: int| 0 <= i < s.skip(1).len() implies spec_is_digit(
                #[trigger] s.skip(1)[i],
            ) by {
                assert(s.skip(1)[i] == s[i + 1]);
            }
        }
        lemma_dec_val_acc_ge(s.skip(1), acc * 10 + spec_digit_val(s[0]));
    }
}

/// A prefix of a digit string is worth no more than the whole string.
pub proof fn lemma_dec_val_prefix(s: Seq<char>, k: int)
    requires
        spec_all_digits(s),
        0 <= k <= s.len(),
    ensures
        spec_dec_val(s.take(k)) <= spec_dec_val(s),
        spec_dec_val(s.take(k)) >= 0,
{
    assert(s =~= s.take(k) + s.skip(k));
    lemma_dec_val_acc_concat(s.take(k), s.skip(k), 0);
    assert(spec_all_digits(s.take(k)));
    assert(spec_all_digits(s.skip(k))) by {
        assert forall|i: int| 0 <= i < s.skip(k).len() implies spec_is_digit(
            #[trigger] s.skip(k)[i],
        ) by {
            assert(s.skip(k)[i] == s[i + k]);
        }
    }
    lemma_dec_val_acc_ge(s.take(k), 0);
    lemma_dec_val_acc_ge(s.skip(k), spec_dec_val_acc(s.take(k), 0));
}

/// The digit string of `n` is made of digits and scans back to `n`.
pub proof fn lemma_dec_roundtrip(n: int)
    requires
        n >= 0,
    ensures
        spec_all_digits(spec_dec(n)),
        spec_dec_val(spec_dec(n)) == n,
        spec_dec(n).len() >= 1,
    decreases n,
{
    if n < 10 {
        assert(spec_dec(n) =~= seq![spec_digit(n)]);
        lemma_dec_val_acc_one(spec_digit(n), 0);
    } else {
        lemma_dec_roundtrip(n / 10);
        lemma_dec_val_acc_snoc(spec_dec(n / 10), spec_digit(n % 10), 0);
        assert(spec_dec_val(spec_dec(n)) == (n / 10) * 10 + n % 10);
        assert((n / 10) * 10 + n % 10 == n) by (nonlinear_arith);
        assert(spec_all_digits(spec_dec(n))) by {
            let s = spec_dec(n / 10) + seq![spec_digit(n % 10)];
            assert forall|i: int| 0 <= i < s.len() implies spec_is_digit(#[trigger] s[i]) by {
                if i < spec_dec(n / 10).len() {
                    assert(s[i] == spec_dec(n / 10)[i]);
                }
            }
        }
    }
}

// ---------------------------------------------------------------------------
// Formatting
// ---------------------------------------------------------------------------

/// Append the digit character for `d` to `s`.
fn push_digit(s: &mut String, d: u64)
    requires
        d < 10,
    ensures
        final(s)@ == old(s)@ + seq![spec_digit(d as int)],
{
    proof {
        reveal_strlit("0");
        reveal_strlit("1");
        reveal_strlit("2");
        reveal_strlit("3");
        reveal_strlit("4");
        reveal_strlit("5");
        reveal_strlit("6");
        reveal_strlit("7");
        reveal_strlit("8");
        reveal_strlit("9");
    }
    if d == 0 {
        proof {
            assert(("0")@ =~= seq![spec_digit(d as int)]);
        }
        s.append("0");
    } else if d == 1 {
        proof {
            assert(("1")@ =~= seq![spec_digit(d as int)]);
        }
        s.append("1");
    } else if d == 2 {
        proof {
            assert(("2")@ =~= seq![spec_digit(d as int)]);
        }
        s.append("2");
    } else if d == 3 {
        proof {
            assert(("3")@ =~= seq![spec_digit(d as int)]);
        }
        s.append("3");
    } else if d == 4 {
        proof {
            assert(("4")@ =~= seq![spec_digit(d as int)]);
        }
        s.append("4");
    } else if d == 5 {
        proof {
            assert(("5")@ =~= seq![spec_digit(d as int)]);
        }
        s.append("5");
    } else if d == 6 {
        proof {
            assert(("6")@ =~= seq![spec_digit(d as int)]);
        }
        s.append("6");
    } else if d == 7 {
        proof {
            assert(("7")@ =~= seq![spec_digit(d as int)]);
        }
        s.append("7");
    } else if d == 8 {
        proof {
            assert(("8")@ =~= seq![spec_digit(d as int)]);
        }
        s.append("8");
    } else {
        proof {
            assert(("9")@ =~= seq![spec_digit(d as int)]);
        }
        s.append("9");
    }
}

/// The decimal digit string of `n`.
pub fn fmt_u64(n: u64) -> (s: String)
    ensures
        s@ == spec_dec(n as int),
    decreases n,
{
    if n < 10 {
        let mut s = String::new();
        push_digit(&mut s, n);
        proof {
            assert(s@ =~= spec_dec(n as int));
        }
        s
    } else {
        assert(n / 10 < n) by (nonlinear_arith)
            requires
                n >= 10,
        ;
        let mut s = fmt_u64(n / 10);
        push_digit(&mut s, n % 10);
        s
    }
}

/// The magnitude of `v`.
pub open spec fn spec_mag(v: int) -> int {
    if v < 0 {
        -v
    } else {
        v
    }
}

/// The text form of a centi-unit value: sign, whole part, and up to two
/// fractional digits with no trailing zero.
pub open spec fn spec_fmt_centi(v: int) -> Seq<char> {
    let m = spec_mag(v);
    let f = m % 100;
    let sign: Seq<char> = if v < 0 {
        seq!['-']
    } else {
        Seq::empty()
    };
    let whole = sign + spec_dec(m / 100);
    if f == 0 {
        whole
    } else if f % 10 == 0 {
        whole + seq!['.', spec_digit(f / 10)]
    } else {
        whole + seq!['.', spec_digit(f / 10), spec_digit(f % 10)]
    }
}

/// Render a centi-unit stat as text.
pub fn fmt_centi(v: i64) -> (s: String)
    ensures
        s@ == spec_fmt_centi(v as int),
{
    let m: u64 = if v < 0 {
        (-(v as i128)) as u64
    } else {
        v as u64
    };
    proof {
        assert(m as int == spec_mag(v as int));
    }
    let mut s = String::new();
    if v < 0 {
        proof {
            reveal_strlit("-");
            assert(("-")@ =~= seq!['-']);
        }
        s.append("-");
    }
    let ws = fmt_u64(m / 100);
    s.append(ws.as_str());
    let f = m % 100;
    if f != 0 {
        proof {
            reveal_strlit(".");
            assert((".")@ =~= seq!['.']);
        }
        s.append(".");
        push_digit(&mut s, f / 10);
        if f % 10 != 0 {
            push_digit(&mut s, f % 10);
        }
    }
    proof {
        assert(s@ =~= spec_fmt_centi(v as int));
    }
    s
}

/// Render a resource count as text.
pub fn fmt_u32(n: u32) -> (s: String)
    ensures
        s@ == spec_dec(n as int),
{
    fmt_u64(n as u64)
}

// ---------------------------------------------------------------------------
// Parsing
// ---------------------------------------------------------------------------

/// Length of the leading run of digit characters.
pub open spec fn spec_digits_len(s: Seq<char>) -> int
    decreases s.len(),
{
    if s.len() > 0 && spec_is_digit(s[0]) {
        1 + spec_digits_len(s.skip(1))
    } else {
        0
    }
}

/// What the leading digit run looks like.
pub proof fn lemma_digits_len(s: Seq<char>)
    ensures
        0 <= spec_digits_len(s) <= s.len(),
        forall|i: int| 0 <= i < spec_digits_len(s) ==> spec_is_digit(#[trigger] s[i]),
        spec_digits_len(s) < s.len() ==> !spec_is_digit(s[spec_digits_len(s)]),
    decreases s.len(),
{
    if s.len() > 0 && spec_is_digit(s[0]) {
        lemma_digits_len(s.skip(1));
        assert forall|i: int| 0 <= i < spec_digits_len(s) implies spec_is_digit(
            #[trigger] s[i],
        ) by {
            if i > 0 {
                assert(s.skip(1)[i - 1] == s[i]);
            }
        }
        if spec_digits_len(s) < s.len() {
            assert(s.skip(1)[spec_digits_len(s) - 1] == s[spec_digits_len(s)]);
        }
    }
}

/// The leading digit run is exactly the run observed by a scan.
pub proof fn lemma_digits_len_is(s: Seq<char>, k: int)
    requires
        0 <= k <= s.len(),
        forall|i: int| 0 <= i < k ==> spec_is_digit(#[trigger] s[i]),
        k < s.len() ==> !spec_is_digit(s[k]),
    ensures
        spec_digits_len(s) == k,
    decreases s.len(),
{
    if k == 0 {
        if s.len() > 0 {
            assert(!spec_is_digit(s[0]));
        }
    } else {
        assert(spec_is_digit(s[0]));
        assert forall|i: int| 0 <= i < k - 1 implies spec_is_digit(#[trigger] s.skip(1)[i]) by {
            assert(s.skip(1)[i] == s[i + 1]);
        }
        if k - 1 < s.skip(1).len() {
            assert(s.skip(1)[k - 1] == s[k]);
        }
        lemma_digits_len_is(s.skip(1), k - 1);
    }
}

/// Parse an unsigned centi-unit magnitude: a digit run, optionally followed
/// by a point and one or two fractional digits. The result is in centi
/// units; malformed text is `None`.
pub open spec fn spec_parse_mag(s: Seq<char>) -> Option<int> {
    let w = spec_digits_len(s);
    if w == 0 {
        Option::None
    } else {
        let wv = spec_dec_val(s.take(w));
        if w == s.len() {
            Option::Some(wv * 100)
        } else if s[w] == '.' {
            let f = s.skip(w + 1);
            if f.len() == 1 && spec_is_digit(f[0]) {
                Option::Some(wv * 100 + spec_digit_val(f[0]) * 10)
            } else if f.len() == 2 && spec_is_digit(f[0]) && spec_is_digit(f[1]) {
                Option::Some(wv * 100 + spec_digit_val(f[0]) * 10 + spec_digit_val(f[1]))
            } else {
                Option::None
            }
        } else {
            Option::None
        }
    }
}

/// Parse a signed centi-unit value; magnitudes outside the `i64` range are
/// rejected.
pub open spec fn spec_parse_centi(s: Seq<char>) -> Option<int> {
    if s.len() > 0 && s[0] == '-' {
        match spec_parse_mag(s.skip(1)) {
            Option::Some(m) => if m <= 0x8000000000000000 {
                Option::Some(-m)
            } else {
                Option::None
            },
            Option::None => Option::None,
        }
    } else {
        match spec_parse_mag(s) {
            Option::Some(m) => if m <= i64::MAX as int {
                Option::Some(m)
            } else {
                Option::None
            },
            Option::None => Option::None,
        }
    }
}

/// The lossy-recovery policy: a malformed numeric field reads as zero.
pub open spec fn spec_centi_or_zero(s: Seq<char>) -> int {
    match spec_parse_centi(s) {
        Option::Some(v) => v,
        Option::None => 0,
    }
}

/// Parse a resource count: a plain digit run within the `u32` range.
pub open spec fn spec_parse_u32(s: Seq<char>) -> Option<int> {
    if s.len() > 0 && spec_digits_len(s) == s.len() && spec_dec_val(s) <= u32::MAX {
        Option::Some(spec_dec_val(s))
    } else {
        Option::None
    }
}

/// The lossy-recovery policy for resource counts.
pub open spec fn spec_u32_or_zero(s: Seq<char>) -> int {
    match spec_parse_u32(s) {
        Option::Some(v) => v,
        Option::None => 0,
    }
}

/// Digit test on a character value.
pub fn is_digit_char(c: char) -> (r: bool)
    ensures
        r == spec_is_digit(c),
{
    let u = c as u32;
    48 <= u && u <= 57
}

/// Accumulator ceiling for the whole-part scan: one more digit past this
/// bound cannot come back into the `i64` centi range.
pub const PARSE_BAIL: u64 = 100000000000000000;

/// When a digit-run prefix already exceeds the bail bound, the whole text
/// parses to `None`.
proof fn lemma_bail_none(s: Seq<char>, neg: bool, k: int)
    requires
        neg ==> s.len() > 0 && s[0] == '-',
        !neg ==> !(s.len() > 0 && s[0] == '-'),
        0 <= k <= spec_digits_len(if neg {
            s.skip(1)
        } else {
            s
        }),
        spec_dec_val((if neg {
            s.skip(1)
        } else {
            s
        }).take(k)) > PARSE_BAIL,
    ensures
        spec_parse_centi(s) is None,
{
    let s0 = if neg {
        s.skip(1)
    } else {
        s
    };
    let w = spec_digits_len(s0);
    lemma_digits_len(s0);
    if spec_parse_mag(s0) is Some {
        let u = s0.take(w);
        assert(spec_all_digits(u));
        assert(u.take(k) =~= s0.take(k));
        lemma_dec_val_prefix(u, k);
        let wv = spec_dec_val(u);
        assert(wv > PARSE_BAIL);
        let m = spec_parse_mag(s0)->0;
        assert(m >= wv * 100);
        assert(m > 0x8000000000000000);
    }
}

/// Parse a signed centi-unit value from a character vector.
pub fn parse_centi(f: &Vec<char>) -> (r: Option<i64>)
    ensures
        match spec_parse_centi(f@) {
            Option::Some(v) => r == Option::Some(v as i64),
            Option::None => r == Option::None::<i64>,
        },
{
    let ghost s = f@;
    let n = f.len();
    let mut neg = false;
    if n > 0 && f[0] == '-' {
        neg = true;
    }
    let start: usize = if neg {
        1
    } else {
        0
    };
    let ghost s0 = if neg {
        s.skip(1)
    } else {
        s
    };
    // End of the leading digit run.
    let mut j = start;
    while j < n
        invariant
            start <= j <= n,
            n == f.len(),
            s == f@,
            forall|k: int| start <= k < j ==> spec_is_digit(#[trigger] s[k]),
        ensures
            start <= j <= n,
            forall|k: int| start <= k < j ==> spec_is_digit(#[trigger] s[k]),
            j < n ==> !spec_is_digit(s[j as int]),
        decreases n - j,
    {
        if !is_digit_char(f[j]) {
            break;
        }
        j = j + 1;
    }
    proof {
        assert(s0 =~= s.skip(start as int));
        assert forall|k: int| 0 <= k < j - start implies spec_is_digit(#[trigger] s0[k]) by {
            assert(s0[k] == s[k + start]);
        }
        if j < n {
            assert(s0[j - start] == s[j as int]);
        }
        lemma_digits_len_is(s0, j - start);
    }
    if j == start {
        return Option::None;
    }
    // Value of the digit run.
    let mut acc: u64 = 0;
    let mut k = start;
    while k < j
        invariant
            start <= k <= j <= n,
            n == f.len(),
            s == f@,
            s0 == (if neg {
                s.skip(1)
            } else {
                s
            }),
            neg ==> s.len() > 0 && s[0] == '-' && start == 1,
            !neg ==> !(s.len() > 0 && s[0] == '-') && start == 0,
            j - start == spec_digits_len(s0),
            forall|q: int| start <= q < j ==> spec_is_digit(#[trigger] s[q]),
            acc as int == spec_dec_val(s0.take(k - start)),
            acc <= 10 * PARSE_BAIL + 9,
        decreases j - k,
    {
        if acc > PARSE_BAIL {
            proof {
                lemma_bail_none(s, neg, k - start);
            }
            return Option::None;
        }
        let d = (f[k] as u32 - 48) as u64;
        proof {
            assert(spec_is_digit(s[k as int]));
            assert(s0.take(k - start + 1) =~= s0.take(k - start) + seq![s0[k - start]]);
            assert(s0[k - start] == s[k as int]);
            lemma_dec_val_acc_snoc(s0.take(k - start), s0[k - start], 0);
        }
        acc = acc * 10 + d;
        k = k + 1;
    }
    proof {
        assert(s0.take(j - start) =~= s0.take(spec_digits_len(s0)));
    }
    // The optional fractional part, then the magnitude in centi units.
    let mag: u128;
    let ghost w = spec_digits_len(s0);
    if j == n {
        mag = acc as u128 * 100;
        proof {
            assert(w == s0.len());
            assert(spec_parse_mag(s0) == Option::Some(mag as int));
        }
    } else if f[j] == '.' {
        proof {
            assert(s0[w] == s[j as int]);
        }
        let ghost fs = s0.skip(w + 1);
        proof {
            assert(fs.len() == n - j - 1);
        }
        if n - j - 1 == 1 {
            let c1 = f[j + 1];
            proof {
                assert(fs[0] == s[j + 1]);
            }
            if is_digit_char(c1) {
                mag = acc as u128 * 100 + ((c1 as u32 - 48) as u128) * 10;
                proof {
                    assert(spec_parse_mag(s0) == Option::Some(mag as int));
                }
            } else {
                return Option::None;
            }
        } else if n - j - 1 == 2 {
            let c1 = f[j + 1];
            let c2 = f[j + 2];
            proof {
                assert(fs[0] == s[j + 1]);
                assert(fs[1] == s[j + 2]);
            }
            if is_digit_char(c1) && is_digit_char(c2) {
                mag = acc as u128 * 100 + ((c1 as u32 - 48) as u128) * 10 + (c2 as u32
                    - 48) as u128;
                proof {
                    assert(spec_parse_mag(s0) == Option::Some(mag as int));
                }
            } else {
                return Option::None;
            }
        } else {
            return Option::None;
        }
    } else {
        return Option::None;
    }
    if neg {
        if mag > 0x8000000000000000u128 {
            Option::None
        } else if mag == 0x8000000000000000u128 {
            Option::Some(i64::MIN)
        } else {
            Option::Some(-(mag as i64))
        }
    } else {
        if mag > 0x7fffffffffffffffu128 {
            Option::None
        } else {
            Option::Some(mag as i64)
        }
    }
}

/// Parse a resource count from a character vector.
pub fn parse_u32(f: &Vec<char>) -> (r: Option<u32>)
    ensures
        match spec_parse_u32(f@) {
            Option::Some(v) => r == Option::Some(v as u32),
            Option::None => r == Option::None::<u32>,
        },
{
    let ghost s = f@;
    let n = f.len();
    if n == 0 {
        return Option::None;
    }
    let mut acc: u64 = 0;
    let mut k: usize = 0;
    while k < n
        invariant
            0 <= k <= n,
            n == f.len(),
            s == f@,
            n > 0,
            forall|q: int| 0 <= q < k ==> spec_is_digit(#[trigger] s[q]),
            acc as int == spec_dec_val(s.take(k as int)),
            acc <= 10 * (u32::MAX as u64) + 9,
        decreases n - k,
    {
        let c = f[k];
        if !is_digit_char(c) {
            proof {
                lemma_digits_len_is(s, k as int);
            }
            return Option::None;
        }
        if acc > u32::MAX as u64 {
            proof {
                lemma_digits_len(s);
                if spec_digits_len(s) == s.len() {
                    assert(spec_all_digits(s));
                    lemma_dec_val_prefix(s, k as int);
                }
            }
            return Option::None;
        }
        proof {
            assert(s.take(k + 1) =~= s.take(k as int) + seq![s[k as int]]);
            lemma_dec_val_acc_snoc(s.take(k as int), s[k as int], 0);
        }
        acc = acc * 10 + (c as u32 - 48) as u64;
        k = k + 1;
    }
    proof {
        lemma_digits_len_is(s, n as int);
        assert(s.take(n as int) =~= s);
    }
    if acc > u32::MAX as u64 {
        Option::None
    } else {
        Option::Some(acc as u32)
    }
}

/// A successful parse is within the `i64` range.
pub proof fn lemma_parse_centi_range(s: Seq<char>)
    ensures
        spec_parse_centi(s) is Some ==> i64::MIN <= spec_parse_centi(s)->0 <= i64::MAX,
{
    let s0 = if s.len() > 0 && s[0] == '-' {
        s.skip(1)
    } else {
        s
    };
    if spec_parse_mag(s0) is Some {
        let w = spec_digits_len(s0);
        lemma_digits_len(s0);
        assert(spec_all_digits(s0.take(w)));
        lemma_dec_val_acc_ge(s0.take(w), 0);
    }
}

/// A successful count parse is within the `u32` range.
pub proof fn lemma_parse_u32_range(s: Seq<char>)
    ensures
        spec_parse_u32(s) is Some ==> 0 <= spec_parse_u32(s)->0 <= u32::MAX,
{
    if spec_parse_u32(s) is Some {
        lemma_digits_len(s);
        assert(spec_all_digits(s));
        lemma_dec_val_acc_ge(s, 0);
    }
}

/// A centi-unit field under the lossy-recovery policy: zero when malformed.
pub fn parse_centi_or_zero(f: &Vec<char>) -> (r: i64)
    ensures
        r as int == spec_centi_or_zero(f@),
{
    proof {
        lemma_parse_centi_range(f@);
    }
    match parse_centi(f) {
        Option::Some(v) => v,
        Option::None => 0,
    }
}

// ---------------------------------------------------------------------------
// Trimming and splitting
// ---------------------------------------------------------------------------

/// The whitespace characters stripped from line and field ends.
pub open spec fn spec_is_ws(c: char) -> bool {
    c == ' ' || c == '\t' || c == '\r' || c == '\n'
}

/// Length of the leading run of whitespace.
pub open spec fn spec_ws_prefix_len(s: Seq<char>) -> int
    decreases s.len(),
{
    if s.len() > 0 && spec_is_ws(s[0]) {
        1 + spec_ws_prefix_len(s.skip(1))
    } else {
        0
    }
}

/// Length of the trailing run of whitespace.
pub open spec fn spec_ws_suffix_len(s: Seq<char>) -> int
    decreases s.len(),
{
    if s.len() > 0 && spec_is_ws(s[s.len() - 1]) {
        1 + spec_ws_suffix_len(s.drop_last())
    } else {
        0
    }
}

/// Both ends stripped of whitespace.
pub open spec fn spec_trim(s: Seq<char>) -> Seq<char> {
    if spec_ws_prefix_len(s) == s.len() {
        Seq::empty()
    } else {
        s.subrange(spec_ws_prefix_len(s), s.len() - spec_ws_suffix_len(s))
    }
}

/// The leading whitespace run is exactly the run observed by a scan.
pub proof fn lemma_ws_prefix_len_is(s: Seq<char>, k: int)
    requires
        0 <= k <= s.len(),
        forall|i: int| 0 <= i < k ==> spec_is_ws(#[trigger] s[i]),
        k < s.len() ==> !spec_is_ws(s[k]),
    ensures
        spec_ws_prefix_len(s) == k,
    decreases s.len(),
{
    if k == 0 {
        if s.len() > 0 {
            assert(!spec_is_ws(s[0]));
        }
    } else {
        assert(spec_is_ws(s[0]));
        assert forall|i: int| 0 <= i < k - 1 implies spec_is_ws(#[trigger] s.skip(1)[i]) by {
            assert(s.skip(1)[i] == s[i + 1]);
        }
        if k - 1 < s.skip(1).len() {
            assert(s.skip(1)[k - 1] == s[k]);
        }
        lemma_ws_prefix_len_is(s.skip(1), k - 1);
    }
}

/// The trailing whitespace run is exactly the run observed by a scan.
pub proof fn lemma_ws_suffix_len_is(s: Seq<char>, k: int)
    requires
        0 <= k <= s.len(),
        forall|i: int| s.len() - k <= i < s.len() ==> spec_is_ws(#[trigger] s[i]),
        k < s.len() ==> !spec_is_ws(s[s.len() - k - 1]),
    ensures
        spec_ws_suffix_len(s) == k,
    decreases s.len(),
{
    if k == 0 {
        if s.len() > 0 {
            assert(!spec_is_ws(s[s.len() - 1]));
        }
    } else {
        assert(spec_is_ws(s[s.len() - 1]));
        assert forall|i: int| s.drop_last().len() - (k - 1) <= i < s.drop_last().len() implies
            spec_is_ws(#[trigger] s.drop_last()[i]) by {
            assert(s.drop_last()[i] == s[i]);
        }
        if k - 1 < s.drop_last().len() {
            assert(s.drop_last()[s.drop_last().len() - k] == s[s.len() - k - 1]);
        }
        lemma_ws_suffix_len_is(s.drop_last(), k - 1);
    }
}

/// Length of the leading run of non-comma characters.
pub open spec fn spec_field_len(s: Seq<char>) -> int
    decreases s.len(),
{
    if s.len() > 0 && s[0] != ',' {
        1 + spec_field_len(s.skip(1))
    } else {
        0
    }
}

/// What the leading comma-free run looks like.
pub proof fn lemma_field_len(s: Seq<char>)
    ensures
        0 <= spec_field_len(s) <= s.len(),
        forall|i: int| 0 <= i < spec_field_len(s) ==> #[trigger] s[i] != ',',
        spec_field_len(s) < s.len() ==> s[spec_field_len(s)] == ',',
    decreases s.len(),
{
    if s.len() > 0 && s[0] != ',' {
        lemma_field_len(s.skip(1));
        assert forall|i: int| 0 <= i < spec_field_len(s) implies #[trigger] s[i] != ',' by {
            if i > 0 {
                assert(s.skip(1)[i - 1] == s[i]);
            }
        }
        if spec_field_len(s) < s.len() {
            assert(s.skip(1)[spec_field_len(s) - 1] == s[spec_field_len(s)]);
        }
    }
}

/// The leading comma-free run is exactly the run observed by a scan.
pub proof fn lemma_field_len_is(s: Seq<char>, k: int)
    requires
        0 <= k <= s.len(),
        forall|i: int| 0 <= i < k ==> #[trigger] s[i] != ',',
        k < s.len() ==> s[k] == ',',
    ensures
        spec_field_len(s) == k,
    decreases s.len(),
{
    if k == 0 {
        if s.len() > 0 {
            assert(s[0] == ',');
        }
    } else {
        assert(s[0] != ',');
        assert forall|i: int| 0 <= i < k - 1 implies #[trigger] s.skip(1)[i] != ',' by {
            assert(s.skip(1)[i] == s[i + 1]);
        }
        if k - 1 < s.skip(1).len() {
            assert(s.skip(1)[k - 1] == s[k]);
        }
        lemma_field_len_is(s.skip(1), k - 1);
    }
}

/// Split on commas; always at least one part, and one more part than there
/// are commas.
pub open spec fn spec_split_commas(s: Seq<char>) -> Seq<Seq<char>>
    decreases s.len(),
{
    if s.len() == 0 {
        seq![Seq::<char>::empty()]
    } else if s[0] == ',' {
        seq![Seq::<char>::empty()] + spec_split_commas(s.skip(1))
    } else {
        let r = spec_split_commas(s.skip(1));
        seq![seq![s[0]] + r[0]] + r.skip(1)
    }
}

/// A split has at least one part.
pub proof fn lemma_split_commas_len(s: Seq<char>)
    ensures
        spec_split_commas(s).len() >= 1,
    decreases s.len(),
{
    if s.len() > 0 {
        lemma_split_commas_len(s.skip(1));
    }
}

/// The first part of a split is the leading comma-free run, and the rest is
/// the split of what follows the comma.
pub proof fn lemma_split_commas_first(s: Seq<char>)
    ensures
        spec_split_commas(s).len() >= 1,
        spec_split_commas(s)[0] == s.take(spec_field_len(s)),
        spec_field_len(s) == s.len() ==> spec_split_commas(s) == seq![s],
        spec_field_len(s) < s.len() ==> spec_split_commas(s) == seq![s.take(spec_field_len(s))]
            + spec_split_commas(s.skip(spec_field_len(s) + 1)),
    decreases s.len(),
{
    lemma_split_commas_len(s);
    lemma_field_len(s);
    let k = spec_field_len(s);
    if s.len() == 0 {
        assert(spec_split_commas(s)[0] =~= s.take(0));
        assert(spec_split_commas(s) =~~= seq![s]);
    } else if s[0] == ',' {
        assert(spec_split_commas(s)[0] =~= s.take(0));
        assert(s.skip(0int + 1) =~= s.skip(1));
        assert(spec_split_commas(s) =~~= seq![s.take(0)] + spec_split_commas(s.skip(1)));
    } else {
        lemma_split_commas_first(s.skip(1));
        lemma_field_len(s.skip(1));
        let r = spec_split_commas(s.skip(1));
        let k1 = spec_field_len(s.skip(1));
        assert(k == 1 + k1);
        assert(seq![s[0]] + s.skip(1).take(k1) =~= s.take(k));
        assert(spec_split_commas(s)[0] == seq![s[0]] + r[0]);
        if k == s.len() {
            assert(r =~~= seq![s.skip(1)]);
            assert(seq![s[0]] + s.skip(1) =~= s);
            assert(spec_split_commas(s) =~~= seq![s]);
        } else {
            assert(s.skip(1).skip(k1 + 1) =~= s.skip(k + 1));
            assert(r.skip(1) =~~= spec_split_commas(s.skip(k + 1)));
            assert(spec_split_commas(s) =~~= seq![s.take(k)] + spec_split_commas(s.skip(k + 1)));
        }
    }
}

/// Whitespace test on a character.
pub fn is_ws_char(c: char) -> (r: bool)
    ensures
        r == spec_is_ws(c),
{
    c == ' ' || c == '\t' || c == '\r' || c == '\n'
}

/// The bounds of the whitespace-trimmed middle of `f`: the trimmed text is
/// exactly `f@.subrange(a, b)`.
pub fn trim_bounds(f: &Vec<char>) -> (r: (usize, usize))
    ensures
        r.0 <= r.1 <= f.len(),
        spec_trim(f@) == f@.subrange(r.0 as int, r.1 as int),
{
    let ghost s = f@;
    let n = f.len();
    let mut a: usize = 0;
    while a < n
        invariant
            0 <= a <= n,
            n == f.len(),
            s == f@,
            forall|k: int| 0 <= k < a ==> spec_is_ws(#[trigger] s[k]),
        ensures
            0 <= a <= n,
            forall|k: int| 0 <= k < a ==> spec_is_ws(#[trigger] s[k]),
            a < n ==> !spec_is_ws(s[a as int]),
        decreases n - a,
    {
        if !is_ws_char(f[a]) {
            break;
        }
        a = a + 1;
    }
    if a == n {
        proof {
            lemma_ws_prefix_len_is(s, n as int);
            assert(spec_trim(s) =~= s.subrange(n as int, n as int));
        }
        return (n, n);
    }
    proof {
        lemma_ws_prefix_len_is(s, a as int);
    }
    let mut b: usize = n;
    while b > a
        invariant
            a <= b <= n,
            n == f.len(),
            s == f@,
            a < n,
            !spec_is_ws(s[a as int]),
            forall|k: int| b <= k < n ==> spec_is_ws(#[trigger] s[k]),
        ensures
            a < b <= n,
            forall|k: int| b <= k < n ==> spec_is_ws(#[trigger] s[k]),
            !spec_is_ws(s[b - 1]),
        decreases b,
    {
        if !is_ws_char(f[b - 1]) {
            break;
        }
        proof {
            if b - 1 == a {
                assert(false);
            }
        }
        b = b - 1;
    }
    proof {
        lemma_ws_suffix_len_is(s, n - b);
    }
    (a, b)
}

/// Copy the whitespace-trimmed middle of `f`.
pub fn trim_chars(f: &Vec<char>) -> (r: Vec<char>)
    ensures
        r@ == spec_trim(f@),
{
    let (a, b) = trim_bounds(f);
    let mut out: Vec<char> = Vec::new();
    let mut i = a;
    while i < b
        invariant
            a <= i <= b <= f.len(),
            out@ == f@.subrange(a as int, i as int),
        decreases b - i,
    {
        out.push(f[i]);
        proof {
            assert(f@.subrange(a as int, i + 1) =~= f@.subrange(a as int, i as int)
                + seq![f@[i as int]]);
        }
        i = i + 1;
    }
    out
}

/// A resource-count field under the lossy-recovery policy: zero when
/// malformed.
pub fn parse_u32_or_zero(f: &Vec<char>) -> (r: u32)
    ensures
        r as int == spec_u32_or_zero(f@),
{
    proof {
        lemma_parse_u32_range(f@);
    }
    match parse_u32(f) {
        Option::Some(v) => v,
        Option::None => 0,
    }
}

// ---------------------------------------------------------------------------
// Records and the status line
// ---------------------------------------------------------------------------

/// Why a persisted record was rejected.
#[derive(Clone, Copy, Debug, PartialEq, Eq)]
pub enum LoadError {
    /// The record does not split into exactly eight comma-separated fields.
    Format,
}

/// The one-line persisted record: all eight fields, comma-separated, with a
/// space before the two resource counts and a final newline.
pub open spec fn spec_record(t: Tamo) -> Seq<char> {
    t.name@ + seq![','] + spec_fmt_centi(t.age as int) + seq![','] + spec_fmt_centi(
        t.hunger as int,
    ) + seq![','] + spec_fmt_centi(t.thirst as int) + seq![','] + spec_fmt_centi(
        t.happiness as int,
    ) + seq![','] + spec_fmt_centi(t.energy as int) + seq![',', ' '] + spec_dec(
        t.room.food as int,
    ) + seq![',', ' '] + spec_dec(t.room.water as int) + seq!['\n']
}

/// The human-readable status line sent back to clients.
pub open spec fn spec_status(t: Tamo) -> Seq<char> {
    ("Name: ")@ + t.name@ + (", Age: ")@ + spec_fmt_centi(t.age as int) + (", Hunger: ")@
        + spec_fmt_centi(t.hunger as int) + (", Thirst: ")@ + spec_fmt_centi(t.thirst as int) + (
    ", Happiness: ")@ + spec_fmt_centi(t.happiness as int) + (", Energy: ")@ + spec_fmt_centi(
        t.energy as int,
    ) + (", Room: food: ")@ + spec_dec(t.room.food as int) + (", water: ")@ + spec_dec(
        t.room.water as int,
    )
}

impl Tamo {
    /// Render the persisted record for this creature.
    pub fn save_tamo(&self) -> (r: String)
        ensures
            r@ == spec_record(*self),
    {
        proof {
            reveal_strlit(",");
            reveal_strlit(", ");
            reveal_strlit("\n");
            assert((",")@ =~= seq![',']);
            assert((", ")@ =~= seq![',', ' ']);
            assert(("\n")@ =~= seq!['\n']);
        }
        let mut s = String::new();
        s.append(self.name.as_str());
        s.append(",");
        let a = fmt_centi(self.age);
        s.append(a.as_str());
        s.append(",");
        let h = fmt_centi(self.hunger);
        s.append(h.as_str());
        s.append(",");
        let th = fmt_centi(self.thirst);
        s.append(th.as_str());
        s.append(",");
        let ha = fmt_centi(self.happiness);
        s.append(ha.as_str());
        s.append(",");
        let en = fmt_centi(self.energy);
        s.append(en.as_str());
        s.append(", ");
        let fo = fmt_u32(self.room.food);
        s.append(fo.as_str());
        s.append(", ");
        let wa = fmt_u32(self.room.water);
        s.append(wa.as_str());
        s.append("\n");
        proof {
            assert(s@ =~= spec_record(*self));
        }
        s
    }

    /// Render the status line for this creature.
    pub fn status_string(&self) -> (r: String)
        ensures
            r@ == spec_status(*self),
    {
        let mut s = String::new();
        s.append("Name: ");
        s.append(self.name.as_str());
        s.append(", Age: ");
        let a = fmt_centi(self.age);
        s.append(a.as_str());
        s.append(", Hunger: ");
        let h = fmt_centi(self.hunger);
        s.append(h.as_str());
        s.append(", Thirst: ");
        let th = fmt_centi(self.thirst);
        s.append(th.as_str());
        s.append(", Happiness: ");
        let ha = fmt_centi(self.happiness);
        s.append(ha.as_str());
        s.append(", Energy: ");
        let en = fmt_centi(self.energy);
        s.append(en.as_str());
        s.append(", Room: food: ");
        let fo = fmt_u32(self.room.food);
        s.append(fo.as_str());
        s.append(", water: ");
        let wa = fmt_u32(self.room.water);
        s.append(wa.as_str());
        proof {
            assert(s@ =~= spec_status(*self));
        }
        s
    }
}

/// The characters of `s`, in order.
pub fn chars_of(s: &str) -> (v: Vec<char>)
    ensures
        v@ == s@,
{
    let n = s.unicode_len();
    let mut v: Vec<char> = Vec::new();
    let mut i: usize = 0;
    while i < n
        invariant
            i <= n,
            n == s@.len(),
            v@ == s@.take(i as int),
        decreases n - i,
    {
        let c = s.get_char(i);
        v.push(c);
        proof {
            assert(s@.take(i + 1) =~= s@.take(i as int) + seq![s@[i as int]]);
        }
        i = i + 1;
    }
    proof {
        assert(s@.take(n as int) =~= s@);
    }
    v
}

/// Read a creature back from one record line. The line is trimmed and split
/// on commas; there must be exactly eight fields. Each numeric field is
/// trimmed of surrounding whitespace and read under the lossy-recovery
/// policy, so a malformed number loads as zero.
pub fn load_tamo(line: &str) -> (r: Result<Tamo, LoadError>)
    ensures
        ({
            let parts = spec_split_commas(spec_trim(line@));
            match r {
                Result::Ok(t) => parts.len() == 8 && t.name@ == parts[0] && t.age as int
                    == spec_centi_or_zero(spec_trim(parts[1])) && t.hunger as int
                    == spec_centi_or_zero(spec_trim(parts[2])) && t.thirst as int
                    == spec_centi_or_zero(spec_trim(parts[3])) && t.happiness as int
                    == spec_centi_or_zero(spec_trim(parts[4])) && t.energy as int
                    == spec_centi_or_zero(spec_trim(parts[5])) && t.room.food as int
                    == spec_u32_or_zero(spec_trim(parts[6])) && t.room.water as int
                    == spec_u32_or_zero(spec_trim(parts[7])),
                Result::Err(e) => parts.len() != 8 && e == LoadError::Format,
            }
        }),
{
    let cs = chars_of(line);
    let (p, e) = trim_bounds(&cs);
    let ghost ts = spec_trim(line@);
    proof {
        assert(ts == cs@.subrange(p as int, e as int));
        assert(ts.skip(0) =~= ts);
        lemma_split_commas_len(ts);
        assert(spec_split_commas(ts) =~~= seq![Seq::<char>::empty() + spec_split_commas(ts)[0]]
            + spec_split_commas(ts).skip(1));
    }
    let mut parts: Vec<Vec<char>> = Vec::new();
    let mut cur: Vec<char> = Vec::new();
    let ghost mut pv: Seq<Seq<char>> = Seq::empty();
    let mut i = p;
    while i < e
        invariant
            p <= i <= e <= cs.len(),
            ts == spec_trim(line@),
            ts == cs@.subrange(p as int, e as int),
            pv.len() == parts@.len(),
            forall|k: int| 0 <= k < pv.len() ==> pv[k] == #[trigger] parts@[k]@,
            spec_split_commas(ts) == pv + seq![cur@ + spec_split_commas(ts.skip(i - p))[0]]
                + spec_split_commas(ts.skip(i - p)).skip(1),
        decreases e - i,
    {
        let ghost rem = ts.skip(i - p);
        proof {
            assert(rem.len() == e - i);
            assert(rem[0] == cs@[i as int]);
            assert(rem.skip(1) =~= ts.skip(i + 1 - p));
            lemma_split_commas_len(ts.skip(i + 1 - p));
        }
        let c = cs[i];
        if c == ',' {
            proof {
                let r = spec_split_commas(rem);
                let r2 = spec_split_commas(ts.skip(i + 1 - p));
                assert(rem[0] == ',');
                assert(r == seq![Seq::<char>::empty()] + r2);
                assert(r[0] =~= Seq::<char>::empty());
                assert(cur@ + r[0] =~= cur@);
                assert(r.skip(1) =~~= r2);
                assert(r2 =~~= seq![r2[0]] + r2.skip(1));
                assert(pv + seq![cur@ + r[0]] + r.skip(1) =~~= (pv + seq![cur@]) + seq![r2[0]]
                    + r2.skip(1));
            }
            parts.push(cur);
            cur = Vec::new();
            proof {
                pv = pv + seq![parts@[parts@.len() - 1]@];
                let r2 = spec_split_commas(ts.skip(i + 1 - p));
                assert(cur@ =~= Seq::<char>::empty());
                assert(cur@ + r2[0] =~= r2[0]);
            }
        } else {
            proof {
                let r = spec_split_commas(rem);
                let r2 = spec_split_commas(ts.skip(i + 1 - p));
                assert(rem[0] != ',');
                assert(r == seq![seq![rem[0]] + r2[0]] + r2.skip(1));
                assert(r[0] == seq![rem[0]] + r2[0]);
                assert(r.skip(1) =~~= r2.skip(1));
                assert(cur@ + (seq![rem[0]] + r2[0]) =~= (cur@ + seq![rem[0]]) + r2[0]);
                assert(cur@.push(c) =~= cur@ + seq![rem[0]]);
            }
            cur.push(c);
        }
        i = i + 1;
    }
    proof {
        assert(ts.skip(e - p) =~= Seq::<char>::empty());
        assert(spec_split_commas(ts.skip(e - p)) =~~= seq![Seq::<char>::empty()]);
        assert(cur@ + Seq::<char>::empty() =~= cur@);
        assert(spec_split_commas(ts) =~~= pv + seq![cur@]);
    }
    parts.push(cur);
    if parts.len() != 8 {
        return Result::Err(LoadError::Format);
    }
    // The name is the first field: a slice of the original line starting at
    // the first non-whitespace character.
    let name_len = parts[0].len();
    proof {
        lemma_split_commas_first(ts);
        lemma_field_len(ts);
        assert(parts@[0]@ == ts.take(spec_field_len(ts)));
        assert(name_len == spec_field_len(ts));
        assert(ts.take(name_len as int) =~= line@.subrange(p as int, p + name_len));
    }
    let name = line.substring_char(p, p + name_len).to_owned();
    let age = parse_centi_or_zero(&trim_chars(&parts[1]));
    let hunger = parse_centi_or_zero(&trim_chars(&parts[2]));
    let thirst = parse_centi_or_zero(&trim_chars(&parts[3]));
    let happiness = parse_centi_or_zero(&trim_chars(&parts[4]));
    let energy = parse_centi_or_zero(&trim_chars(&parts[5]));
    let food = parse_u32_or_zero(&trim_chars(&parts[6]));
    let water = parse_u32_or_zero(&trim_chars(&parts[7]));
    Result::Ok(
        Tamo { name, age, hunger, thirst, happiness, energy, room: TamoRoom { food, water } },
    )
}

// ---------------------------------------------------------------------------
// The save/load round trip
// ---------------------------------------------------------------------------

/// A digit run followed by anything that does not start with a digit has
/// that run as its leading digit run.
pub proof fn lemma_digits_len_concat(u: Seq<char>, rest: Seq<char>)
    requires
        spec_all_digits(u),
        rest.len() > 0 ==> !spec_is_digit(rest[0]),
    ensures
        spec_digits_len(u + rest) == u.len(),
{
    let s = u + rest;
    assert forall|i: int| 0 <= i < u.len() implies spec_is_digit(#[trigger] s[i]) by {
        assert(s[i] == u[i]);
    }
    if u.len() < s.len() {
        assert(s[u.len() as int] == rest[0]);
    }
    lemma_digits_len_is(s, u.len() as int);
}

/// Every character of a formatted centi value is a digit, a minus sign or a
/// point; none is whitespace or a comma.
pub proof fn lemma_fmt_centi_chars(v: int)
    ensures
        spec_fmt_centi(v).len() >= 1,
        forall|i: int| 0 <= i < spec_fmt_centi(v).len() ==> !spec_is_ws(#[trigger] spec_fmt_centi(
            v,
        )[i]) && spec_fmt_centi(v)[i] != ',',
{
    let m = spec_mag(v);
    let f = m % 100;
    lemma_dec_roundtrip(m / 100);
    let d = spec_dec(m / 100);
    let sign: Seq<char> = if v < 0 {
        seq!['-']
    } else {
        Seq::empty()
    };
    let s = spec_fmt_centi(v);
    assert forall|i: int| 0 <= i < s.len() implies !spec_is_ws(#[trigger] s[i]) && s[i] != ',' by {
        let c = s[i];
        if i < sign.len() {
            assert(c == '-');
        } else if i < sign.len() + d.len() {
            assert(c == d[i - sign.len()]);
            assert(spec_is_digit(c));
        } else {
            assert(i - sign.len() - d.len() >= 0);
            if f != 0 && f % 10 == 0 {
                let fp = seq!['.', spec_digit(f / 10)];
                assert(c == fp[i - sign.len() - d.len()]);
            } else {
                let fp = seq!['.', spec_digit(f / 10), spec_digit(f % 10)];
                assert(c == fp[i - sign.len() - d.len()]);
            }
        }
    }
}

/// Reading back a formatted centi value gives the value itself.
pub proof fn lemma_parse_fmt_centi(v: int)
    requires
        i64::MIN <= v <= i64::MAX,
    ensures
        spec_parse_centi(spec_fmt_centi(v)) == Option::Some(v),
{
    let m = spec_mag(v);
    let f = m % 100;
    let w = m / 100;
    lemma_fundamental_div_mod(m, 100);
    lemma_fundamental_div_mod(f, 10);
    lemma_dec_roundtrip(w);
    let d = spec_dec(w);
    let frac: Seq<char> = if f == 0 {
        Seq::empty()
    } else if f % 10 == 0 {
        seq!['.', spec_digit(f / 10)]
    } else {
        seq!['.', spec_digit(f / 10), spec_digit(f % 10)]
    };
    let s0 = d + frac;
    assert(spec_fmt_centi(v) =~= (if v < 0 {
        seq!['-']
    } else {
        Seq::<char>::empty()
    }) + s0);
    lemma_digits_len_concat(d, frac);
    assert(spec_digits_len(s0) == d.len());
    assert(s0.take(d.len() as int) =~= d);
    // The whole part scans back to `w`, prefixes aside.
    assert(spec_dec_val(s0.take(d.len() as int)) == w);
    if f == 0 {
        assert(s0 =~= d);
        assert(spec_parse_mag(s0) == Option::Some(w * 100));
    } else {
        assert(s0[d.len() as int] == '.');
        let fs = s0.skip(d.len() as int + 1);
        assert(fs =~= frac.skip(1));
        if f % 10 == 0 {
            assert(fs =~= seq![spec_digit(f / 10)]);
            assert(spec_parse_mag(s0) == Option::Some(w * 100 + (f / 10) * 10));
            assert(w * 100 + (f / 10) * 10 == m);
        } else {
            assert(fs =~= seq![spec_digit(f / 10), spec_digit(f % 10)]);
            assert(spec_parse_mag(s0) == Option::Some(w * 100 + (f / 10) * 10 + f % 10));
            assert(w * 100 + (f / 10) * 10 + f % 10 == m);
        }
    }
    if v < 0 {
        let s = seq!['-'] + s0;
        assert(s[0] == '-');
        assert(s.skip(1) =~= s0);
        assert(m <= 0x8000000000000000);
    } else {
        assert(s0[0] == d[0]);
        assert(spec_is_digit(s0[0]));
        assert(s0[0] != '-');
        assert(m <= i64::MAX);
    }
}

/// Reading back a formatted resource count gives the count itself.
pub proof fn lemma_parse_dec_u32(n: int)
    requires
        0 <= n <= u32::MAX,
    ensures
        spec_parse_u32(spec_dec(n)) == Option::Some(n),
{
    lemma_dec_roundtrip(n);
    let d = spec_dec(n);
    lemma_digits_len_is(d, d.len() as int);
}

/// Text whose first and last characters are not whitespace trims to itself.
pub proof fn lemma_trim_clean(s: Seq<char>)
    requires
        s.len() >= 1,
        !spec_is_ws(s[0]),
        !spec_is_ws(s[s.len() - 1]),
    ensures
        spec_trim(s) == s,
{
    lemma_ws_prefix_len_is(s, 0);
    lemma_ws_suffix_len_is(s, 0);
    assert(s.subrange(0, s.len() as int) =~= s);
}

/// A single leading space before a digit run trims away.
pub proof fn lemma_trim_space_digits(d: Seq<char>)
    requires
        spec_all_digits(d),
        d.len() >= 1,
    ensures
        spec_trim(seq![' '] + d) == d,
{
    let s = seq![' '] + d;
    assert(spec_is_ws(s[0]));
    assert(s[1] == d[0]);
    lemma_ws_prefix_len_is(s, 1);
    assert(s[s.len() - 1] == d[d.len() - 1]);
    lemma_ws_suffix_len_is(s, 0);
    assert(s.subrange(1, s.len() as int) =~= d);
}

/// Splitting a comma-free chunk, a comma and a rest yields the chunk and the
/// split of the rest.
pub proof fn lemma_split_chunk(chunk: Seq<char>, rest: Seq<char>)
    requires
        forall|i: int| 0 <= i < chunk.len() ==> #[trigger] chunk[i] != ',',
    ensures
        spec_split_commas(chunk + seq![','] + rest) == seq![chunk] + spec_split_commas(rest),
{
    let s = chunk + seq![','] + rest;
    assert forall|i: int| 0 <= i < chunk.len() implies #[trigger] s[i] != ',' by {
        assert(s[i] == chunk[i]);
    }
    assert(s[chunk.len() as int] == ',');
    lemma_field_len_is(s, chunk.len() as int);
    lemma_split_commas_first(s);
    assert(s.take(chunk.len() as int) =~= chunk);
    assert(s.skip(chunk.len() as int + 1) =~= rest);
    assert(spec_split_commas(s) =~~= seq![chunk] + spec_split_commas(rest));
}

/// Splitting a comma-free chunk yields just the chunk.
pub proof fn lemma_split_whole(chunk: Seq<char>)
    requires
        forall|i: int| 0 <= i < chunk.len() ==> #[trigger] chunk[i] != ',',
    ensures
        spec_split_commas(chunk) == seq![chunk],
{
    lemma_field_len_is(chunk, chunk.len() as int);
    lemma_split_commas_first(chunk);
}

/// The save/load round trip: the record written for a creature reads back
/// with every field intact, provided the name is comma-free and does not
/// begin with whitespace.
#[verifier::rlimit(100)]
pub proof fn lemma_save_load_roundtrip(t: Tamo)
    requires
        forall|i: int| 0 <= i < t.name@.len() ==> #[trigger] t.name@[i] != ',',
        t.name@.len() > 0 ==> !spec_is_ws(t.name@[0]),
    ensures
        ({
            let parts = spec_split_commas(spec_trim(spec_record(t)));
            &&& parts.len() == 8
            &&& parts[0] == t.name@
            &&& spec_centi_or_zero(spec_trim(parts[1])) == t.age as int
            &&& spec_centi_or_zero(spec_trim(parts[2])) == t.hunger as int
            &&& spec_centi_or_zero(spec_trim(parts[3])) == t.thirst as int
            &&& spec_centi_or_zero(spec_trim(parts[4])) == t.happiness as int
            &&& spec_centi_or_zero(spec_trim(parts[5])) == t.energy as int
            &&& spec_u32_or_zero(spec_trim(parts[6])) == t.room.food as int
            &&& spec_u32_or_zero(spec_trim(parts[7])) == t.room.water as int
        }),
{
    let name = t.name@;
    let a = spec_fmt_centi(t.age as int);
    let h = spec_fmt_centi(t.hunger as int);
    let th = spec_fmt_centi(t.thirst as int);
    let ha = spec_fmt_centi(t.happiness as int);
    let en = spec_fmt_centi(t.energy as int);
    let fo = spec_dec(t.room.food as int);
    let wa = spec_dec(t.room.water as int);
    lemma_fmt_centi_chars(t.age as int);
    lemma_fmt_centi_chars(t.hunger as int);
    lemma_fmt_centi_chars(t.thirst as int);
    lemma_fmt_centi_chars(t.happiness as int);
    lemma_fmt_centi_chars(t.energy as int);
    lemma_dec_roundtrip(t.room.food as int);
    lemma_dec_roundtrip(t.room.water as int);
    let c6 = seq![' '] + fo;
    let c7 = seq![' '] + wa;
    let r6 = c6 + seq![','] + c7;
    let r5 = en + seq![','] + r6;
    let r4 = ha + seq![','] + r5;
    let r3 = th + seq![','] + r4;
    let r2 = h + seq![','] + r3;
    let r1 = a + seq![','] + r2;
    let ts = name + seq![','] + r1;
    let rec = spec_record(t);
    assert(rec =~= ts + seq!['\n']);
    // Trimming strips exactly the final newline.
    assert(!spec_is_ws(rec[0])) by {
        if name.len() > 0 {
            assert(rec[0] == name[0]);
        } else {
            assert(rec[0] == ',');
        }
    }
    lemma_ws_prefix_len_is(rec, 0);
    assert(spec_is_ws(rec[rec.len() - 1]));
    assert(rec[rec.len() - 2] == wa[wa.len() - 1]) by {
        assert(rec.len() - 2 == ts.len() - 1);
        assert(rec[ts.len() - 1] == ts[ts.len() - 1]);
    }
    assert(spec_is_digit(wa[wa.len() - 1]));
    lemma_ws_suffix_len_is(rec, 1);
    assert(spec_trim(rec) =~= ts);
    // Split into the eight fields.
    assert forall|i: int| 0 <= i < c6.len() implies #[trigger] c6[i] != ',' by {
        if i > 0 {
            assert(c6[i] == fo[i - 1]);
            assert(spec_is_digit(c6[i]));
        }
    }
    assert forall|i: int| 0 <= i < c7.len() implies #[trigger] c7[i] != ',' by {
        if i > 0 {
            assert(c7[i] == wa[i - 1]);
            assert(spec_is_digit(c7[i]));
        }
    }
    lemma_split_chunk(name, r1);
    lemma_split_chunk(a, r2);
    lemma_split_chunk(h, r3);
    lemma_split_chunk(th, r4);
    lemma_split_chunk(ha, r5);
    lemma_split_chunk(en, r6);
    lemma_split_chunk(c6, c7);
    lemma_split_whole(c7);
    let parts = spec_split_commas(ts);
    assert(parts =~~= seq![name, a, h, th, ha, en, c6, c7]);
    // Each numeric field trims clean and reads back.
    lemma_trim_clean(a);
    lemma_trim_clean(h);
    lemma_trim_clean(th);
    lemma_trim_clean(ha);
    lemma_trim_clean(en);
    lemma_trim_space_digits(fo);
    lemma_trim_space_digits(wa);
    lemma_parse_fmt_centi(t.age as int);
    lemma_parse_fmt_centi(t.hunger as int);
    lemma_parse_fmt_centi(t.thirst as int);
    lemma_parse_fmt_centi(t.happiness as int);
    lemma_parse_fmt_centi(t.energy as int);
    lemma_parse_dec_u32(t.room.food as int);
    lemma_parse_dec_u32(t.room.water as int);
}

} // verus!


