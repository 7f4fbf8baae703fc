//! Donation amounts as decimal text.
//!
//! A donation is written as a decimal number of NEAR with a fraction part,
//! such as `2.0` or `0.125`, and counted in yoctoNEAR (10^-24 NEAR).

use vstd::prelude::*;
use vstd::string::*;
use vstd::utf8::is_ascii_chars;

verus! {

/// yoctoNEAR in one NEAR.
pub const ONE_NEAR: u128 = 1_000_000_000_000_000_000_000_000;

/// The finest step that survives re-writing an amount of one NEAR or more.
pub const COARSE_STEP: u128 = 10_000_000_000_000_000_000;

/// Most digits before the point of an amount.
pub const MAX_WHOLE_DIGITS: usize = 14;

/// Most digits after the point of an amount.
pub const MAX_FRACTION_DIGITS: usize = 24;

/// Ten to the power of `n`.
pub open spec fn pow10(n: nat) -> nat
    decreases n,
{
    if n == 0 {
        1
    } else {
        10 * pow10((n - 1) as nat)
    }
}

/// `c` is a decimal digit.
pub open spec fn is_digit(c: char) -> bool {
    '0' <= c <= '9'
}

/// The number that a run of decimal digits writes.
pub open spec fn digits_value(s: Seq<char>) -> nat
    decreases s.len(),
{
    if s.len() == 0 {
        0
    } else {
        digits_value(s.drop_last()) * 10 + (s.last() as nat - '0' as nat) as nat
    }
}

/// `s` has a point at `at`, digits everywhere else, between one and
/// fourteen of them before the point and between one and twenty-four after.
pub open spec fn has_point_at(s: Seq<char>, at: int) -> bool {
    &&& 1 <= at <= MAX_WHOLE_DIGITS
    &&& at + 2 <= s.len() <= at + 1 + MAX_FRACTION_DIGITS
    &&& s[at] == '.'
    &&& forall|i: int| 0 <= i < s.len() && i != at ==> is_digit(#[trigger] s[i])
}

/// `s` is an amount written in full: digits, one point, digits.
pub open spec fn well_formed(s: Seq<char>) -> bool {
    exists|at: int| has_point_at(s, at)
}

/// Where the point of an amount stands.
pub open spec fn point(s: Seq<char>) -> int {
    choose|at: int| has_point_at(s, at)
}

/// The digits before the point.
pub open spec fn whole_part(s: Seq<char>) -> Seq<char> {
    s.subrange(0, point(s))
}

/// The digits after the point.
pub open spec fn fraction_part(s: Seq<char>) -> Seq<char> {
    s.subrange(point(s) + 1, s.len() as int)
}

/// The yoctoNEAR that a well-formed amount stands for.
pub open spec fn yocto_of(s: Seq<char>) -> nat {
    digits_value(whole_part(s)) * pow10(24) + digits_value(fraction_part(s)) * pow10(
        (24 - fraction_part(s).len()) as nat,
    )
}

/// A text with a fraction part: the text itself where it is written in
/// full, else the text followed by `.0`.
pub open spec fn with_fraction(raw: Seq<char>) -> Seq<char> {
    if well_formed(raw) {
        raw
    } else {
        raw + seq!['.', '0']
    }
}

/// `s` can be read as an amount: it is written in full, or it is a whole
/// number of at most fourteen digits.
pub open spec fn readable(s: Seq<char>) -> bool {
    well_formed(with_fraction(s))
}

/// The yoctoNEAR that a readable amount stands for.
pub open spec fn value_of(s: Seq<char>) -> nat {
    yocto_of(with_fraction(s))
}

/// What reading a text as an amount gives.
pub open spec fn amount_value(s: Seq<char>) -> Option<u128> {
    if readable(s) {
        Some(value_of(s) as u128)
    } else {
        None
    }
}

/// An amount that writes zero as `0.` followed by zeros only.
pub open spec fn is_plain_zero(s: Seq<char>) -> bool {
    &&& s.len() >= 3
    &&& s[0] == '0'
    &&& s[1] == '.'
    &&& forall|i: int| 2 <= i < s.len() ==> #[trigger] s[i] == '0'
}

/// A power of ten is above zero.
pub proof fn lemma_pow10_positive(n: nat)
    ensures
        pow10(n) > 0,
    decreases n,
{
    if n > 0 {
        lemma_pow10_positive((n - 1) as nat);
    }
}

/// Powers of ten multiply by adding their exponents.
pub proof fn lemma_pow10_add(a: nat, b: nat)
    ensures
        pow10(a + b) == pow10(a) * pow10(b),
    decreases a,
{
    if a == 0 {
        assert(pow10(0) == 1);
    } else {
        lemma_pow10_add((a - 1) as nat, b);
        assert(pow10(a + b) == 10 * pow10((a - 1 + b) as nat));
        assert(10 * (pow10((a - 1) as nat) * pow10(b)) == (10 * pow10((a - 1) as nat)) * pow10(b))
            by (nonlinear_arith);
    }
}

/// The powers of ten that the amounts are made of.
pub proof fn lemma_pow10_values()
    ensures
        pow10(5) == 100_000,
        pow10(14) == 100_000_000_000_000,
        pow10(19) == 10_000_000_000_000_000_000,
        pow10(24) == 1_000_000_000_000_000_000_000_000,
        pow10(38) == 100_000_000_000_000_000_000_000_000_000_000_000_000,
{
    reveal_with_fuel(pow10, 6);
    assert(pow10(5) == 100_000);
    lemma_pow10_add(5, 5);
    lemma_pow10_add(5, 9);
    assert(pow10(4) == 10_000);
    lemma_pow10_add(5, 4);
    assert(pow10(9) == 1_000_000_000);
    assert(pow10(14) == 100_000_000_000_000);
    lemma_pow10_add(14, 5);
    lemma_pow10_add(19, 5);
    lemma_pow10_add(24, 14);
}

/// A run of digits of length `n` writes a number below 10^n.
pub proof fn lemma_digits_value_bound(s: Seq<char>)
    requires
        forall|i: int| 0 <= i < s.len() ==> is_digit(#[trigger] s[i]),
    ensures
        digits_value(s) < pow10(s.len()),
    decreases s.len(),
{
    if s.len() > 0 {
        let t = s.drop_last();
        assert forall|i: int| 0 <= i < t.len() implies is_digit(#[trigger] t[i]) by {
            assert(t[i] == s[i]);
        }
        lemma_digits_value_bound(t);
        assert(is_digit(s[s.len() - 1]));
    }
}

/// A run of zeros writes zero.
pub proof fn lemma_zeros_value(s: Seq<char>)
    requires
        forall|i: int| 0 <= i < s.len() ==> #[trigger] s[i] == '0',
    ensures
        digits_value(s) == 0,
    decreases s.len(),
{
    if s.len() > 0 {
        let t = s.drop_last();
        assert forall|i: int| 0 <= i < t.len() implies #[trigger] t[i] == '0' by {
            assert(t[i] == s[i]);
        }
        lemma_zeros_value(t);
        assert(s[s.len() - 1] == '0');
    }
}

/// An amount has its point in one place only.
pub proof fn lemma_point_unique(s: Seq<char>, at: int)
    requires
        has_point_at(s, at),
    ensures
        well_formed(s),
        point(s) == at,
{
    let p = point(s);
    assert(has_point_at(s, p));
    if p != at {
        assert(is_digit(s[p]));
    }
}

/// A well-formed amount is below 10^38 yoctoNEAR, so it fits in 128 bits.
pub proof fn lemma_yocto_bound(s: Seq<char>)
    requires
        well_formed(s),
    ensures
        yocto_of(s) < pow10(38),
        yocto_of(s) < 100_000_000_000_000_000_000_000_000_000_000_000_000,
        yocto_of(s) <= u128::MAX,
{
    let at = point(s);
    assert(has_point_at(s, at));
    let w = whole_part(s);
    let f = fraction_part(s);
    assert forall|i: int| 0 <= i < w.len() implies is_digit(#[trigger] w[i]) by {
        assert(w[i] == s[i]);
    }
    assert forall|i: int| 0 <= i < f.len() implies is_digit(#[trigger] f[i]) by {
        assert(f[i] == s[at + 1 + i]);
    }
    lemma_digits_value_bound(w);
    lemma_digits_value_bound(f);
    let rest = (24 - f.len()) as nat;
    lemma_pow10_add(f.len(), rest);
    lemma_pow10_add(w.len(), (14 - w.len()) as nat);
    lemma_pow10_positive((14 - w.len()) as nat);
    lemma_pow10_positive(rest);
    lemma_pow10_add(14, 24);
    lemma_pow10_values();
    let dw = digits_value(w);
    let df = digits_value(f);
    let p24 = pow10(24);
    assert(dw + 1 <= pow10(14)) by (nonlinear_arith)
        requires
            dw < pow10(w.len()),
            pow10(14) == pow10(w.len()) * pow10((14 - w.len()) as nat),
            pow10((14 - w.len()) as nat) > 0,
    ;
    assert(df * pow10(rest) < p24) by (nonlinear_arith)
        requires
            df < pow10(f.len()),
            p24 == pow10(f.len()) * pow10(rest),
            pow10(rest) > 0,
    ;
    assert(dw * p24 + p24 <= pow10(14) * p24) by (nonlinear_arith)
        requires
            dw + 1 <= pow10(14),
            p24 > 0,
    ;
}

/// Calls `near_helper::near_to_yoctonear`, which turns a decimal text into
/// yoctoNEAR. On an amount that is written in full and is no plain zero the
/// helper copies the digits before and after the point and pads them with
/// zeros up to twenty-four decimals, so it returns the number that the text
/// stands for. On other texts it may panic or miscount; they are left out.
#[verifier::external_body]
fn helper_near_to_yocto(text: &String) -> (yocto: u128)
    requires
        well_formed(text@),
        !is_plain_zero(text@),
    ensures
        yocto == yocto_of(text@),
{
    near_helper::near_to_yoctonear(text.clone())
}

/// Reads an amount that is written in full; `None` on any other text.
fn parse_well_formed(text: &String) -> (r: Option<u128>)
    ensures
        r is Some <==> well_formed(text@),
        r is Some ==> r->0 == yocto_of(text@),
{
    let ghost s = text@;
    if !text.is_ascii() {
        proof {
            if well_formed(s) {
                let p = point(s);
                assert(has_point_at(s, p));
                let i = choose|i: int| 0 <= i < s.len() && !('\0' <= #[trigger] s[i] <= '\u{7f}');
                assert(is_digit(s[i]) || s[i] == '.');
            }
        }
        return None;
    }
    let bytes = text.as_str().as_bytes();
    let len = bytes.len();
    proof {
        vstd::utf8::is_ascii_chars_encode_utf8(s);
    }
    assert(len == s.len());
    assert(forall|i: int| 0 <= i < len ==> bytes@[i] == #[trigger] s[i] as u8);
    let mut at: usize = 0;
    while at < len && bytes[at] >= 48 && bytes[at] <= 57
        invariant
            at <= len,
            s == text@,
            len == s.len(),
            len == bytes@.len(),
            is_ascii_chars(s),
            forall|i: int| 0 <= i < len ==> bytes@[i] == #[trigger] s[i] as u8,
            forall|i: int| 0 <= i < at ==> is_digit(#[trigger] s[i]),
        decreases len - at,
    {
        assert(is_digit(s[at as int]));
        at += 1;
    }
    if at == 0 || at > MAX_WHOLE_DIGITS || at >= len || bytes[at] != 46 {
        proof {
            if well_formed(s) {
                let p = point(s);
                assert(has_point_at(s, p));
                if p < at {
                    assert(is_digit(s[p]));
                } else if at < len {
                    assert(!is_digit(s[at as int]));
                    assert(s[at as int] != '.' || at == 0 || at > MAX_WHOLE_DIGITS);
                }
            }
        }
        return None;
    }
    assert(s[at as int] == '.');
    let fraction_len: usize = len - at - 1;
    if fraction_len == 0 || fraction_len > MAX_FRACTION_DIGITS {
        proof {
            if well_formed(s) {
                let p = point(s);
                assert(has_point_at(s, p));
                assert(!is_digit(s[at as int]));
            }
        }
        return None;
    }
    let mut j: usize = at + 1;
    let mut all_zero: bool = true;
    while j < len
        invariant
            at + 1 <= j <= len,
            s == text@,
            s[at as int] == '.',
            len == s.len(),
            len == bytes@.len(),
            is_ascii_chars(s),
            forall|i: int| 0 <= i < len ==> bytes@[i] == #[trigger] s[i] as u8,
            forall|i: int| at < i < j ==> is_digit(#[trigger] s[i]),
            all_zero <==> forall|i: int| at < i < j ==> #[trigger] s[i] == '0',
        decreases len - j,
    {
        let b: u8 = bytes[j];
        if b < 48 || b > 57 {
            proof {
                if well_formed(s) {
                    let p = point(s);
                    assert(has_point_at(s, p));
                    assert(!is_digit(s[at as int]));
                    assert(!is_digit(s[j as int]));
                }
            }
            return None;
        }
        assert(is_digit(s[j as int]));
        if b != 48 {
            assert(s[j as int] != '0');
            all_zero = false;
        }
        j += 1;
    }
    proof {
        assert(has_point_at(s, at as int));
        lemma_point_unique(s, at as int);
        lemma_yocto_bound(s);
    }
    if at == 1 && bytes[0] == 48 && all_zero {
        proof {
            let w = whole_part(s);
            let f = fraction_part(s);
            assert(w.len() == 1 && w[0] == '0');
            assert(w.drop_last().len() == 0);
            assert(digits_value(w) == 0) by {
                reveal_with_fuel(digits_value, 2);
            }
            assert forall|i: int| 0 <= i < f.len() implies #[trigger] f[i] == '0' by {
                assert(f[i] == s[at + 1 + i]);
            }
            lemma_zeros_value(f);
            assert(digits_value(w) * pow10(24) == 0) by (nonlinear_arith)
                requires
                    digits_value(w) == 0,
            ;
            assert(digits_value(f) * pow10((24 - f.len()) as nat) == 0) by (nonlinear_arith)
                requires
                    digits_value(f) == 0,
            ;
        }
        return Some(0);
    }
    proof {
        if is_plain_zero(s) {
            assert(s[0] == '0');
            assert(s[1] == '.');
            assert(at == 1) by {
                if at != 1 {
                    assert(is_digit(s[1]));
                }
            }
            assert(forall|i: int| at < i < len ==> #[trigger] s[i] == '0');
        }
    }
    let yocto = helper_near_to_yocto(text);
    Some(yocto)
}

/// What is left of an amount once it has been written out and read back:
/// all of it below 100000 yoctoNEAR, its five leading digits below one NEAR,
/// and its whole multiples of 10^19 yoctoNEAR (five decimals) from one NEAR on.
pub open spec fn settled(y: nat) -> nat
    decreases y,
{
    if y < 100_000 {
        y
    } else if y >= ONE_NEAR {
        ((y / (COARSE_STEP as nat)) * COARSE_STEP) as nat
    } else {
        10 * settled(y / 10)
    }
}

/// Writing an amount out never adds to it.
pub proof fn lemma_settled_below(y: nat)
    ensures
        settled(y) <= y,
    decreases y,
{
    if y >= 100_000 && y < ONE_NEAR {
        lemma_settled_below(y / 10);
    }
}

/// Writing an amount out keeps it in its band: at or above 100000 yoctoNEAR
/// it stays there, at or above one NEAR it stays there.
pub proof fn lemma_settled_band(y: nat)
    ensures
        y >= 100_000 ==> settled(y) >= 100_000,
        y >= ONE_NEAR ==> settled(y) >= ONE_NEAR,
    decreases y,
{
    if y >= 100_000 && y < ONE_NEAR {
        lemma_settled_band(y / 10);
        if y / 10 < 100_000 {
            assert(settled(y / 10) == y / 10);
        }
    }
}

/// A larger amount is written out as at least as much.
pub proof fn lemma_settled_monotone(a: nat, b: nat)
    requires
        a <= b,
    ensures
        settled(a) <= settled(b),
    decreases b,
{
    lemma_settled_below(a);
    lemma_settled_band(b);
    if b < 100_000 {
    } else if a >= ONE_NEAR {
    } else if b >= ONE_NEAR {
    } else if a < 100_000 {
    } else {
        lemma_settled_monotone(a / 10, b / 10);
    }
}

/// Writing out what was written out changes nothing.
pub proof fn lemma_settled_idempotent(y: nat)
    ensures
        settled(settled(y)) == settled(y),
    decreases y,
{
    if y < 100_000 {
    } else if y >= ONE_NEAR {
    } else {
        lemma_settled_idempotent(y / 10);
        lemma_settled_below(y);
        lemma_settled_band(y);
        assert(settled(y) / 10 == settled(y / 10));
    }
}

/// An amount that writing out leaves as it is never shrinks when something
/// is added to it and the sum is written out.
pub proof fn lemma_settled_sum_not_below(old_yocto: nat, added: nat)
    requires
        settled(old_yocto) == old_yocto,
    ensures
        settled(old_yocto + added) >= old_yocto,
        settled(settled(old_yocto + added)) == settled(old_yocto + added),
{
    lemma_settled_monotone(old_yocto, old_yocto + added);
    lemma_settled_idempotent(old_yocto + added);
}

/// Gives a text its fraction part: a text that is no amount written in
/// full gets `.0` at its end.
pub fn normalize(text: String) -> (r: String)
    ensures
        r@ == with_fraction(text@),
{
    if parse_well_formed(&text).is_some() {
        text
    } else {
        proof {
            reveal_strlit(".0");
            assert(".0"@ =~= seq!['.', '0']);
        }
        text.concat(".0")
    }
}

/// Reads a decimal text as an amount of yoctoNEAR; `None` on a text that
/// cannot be read as one.
pub fn parse_amount(text: &String) -> (r: Option<u128>)
    ensures
        r == amount_value(text@),
{
    let full = normalize(text.clone());
    proof {
        if well_formed(full@) {
            lemma_yocto_bound(full@);
        }
    }
    parse_well_formed(&full)
}

/// A readable amount is below 10^38 yoctoNEAR, so it fits in 128 bits.
pub proof fn lemma_value_bound(s: Seq<char>)
    requires
        readable(s),
    ensures
        value_of(s) < 100_000_000_000_000_000_000_000_000_000_000_000_000,
        value_of(s) <= u128::MAX,
{
    lemma_yocto_bound(with_fraction(s));
}

/// Cuts an amount down to what writing it out keeps.
pub fn settle(yocto: u128) -> (r: u128)
    ensures
        r == settled(yocto as nat),
    decreases yocto,
{
    if yocto < 100_000 {
        yocto
    } else if yocto >= ONE_NEAR {
        (yocto / COARSE_STEP) * COARSE_STEP
    } else {
        proof {
            lemma_settled_below((yocto / 10) as nat);
        }
        10 * settle(yocto / 10)
    }
}

/// The text that `near_helper::yoctonear_to_near` writes for an amount.
pub uninterp spec fn near_text(yocto: u128) -> Seq<char>;

/// Calls `near_helper::yoctonear_to_near`, which writes yoctoNEAR as a
/// decimal text. The helper looks at nothing but its argument, so the text
/// is a function of the amount; nothing more is claimed of it here.
#[verifier::external_body]
fn helper_yocto_to_near(yocto: u128) -> (text: String)
    ensures
        text@ == near_text(yocto),
{
    near_helper::yoctonear_to_near(yocto)
}

/// The amount text that the registry keeps for `yocto`, given the text `raw`
/// that was written for it: `raw` with a fraction part, where that reads back
/// as `yocto` cut down to what writing keeps; nothing otherwise.
pub open spec fn kept_text(raw: Seq<char>, yocto: u128) -> Option<Seq<char>> {
    if amount_value(raw) == Some(settled(yocto as nat) as u128) {
        Some(with_fraction(raw))
    } else {
        None
    }
}

/// Checks a text that was written for `yocto` and gives the text to keep.
pub fn accept_text(raw: String, yocto: u128) -> (r: Option<String>)
    ensures
        r is Some <==> kept_text(raw@, yocto) is Some,
        r is Some ==> r->0@ == kept_text(raw@, yocto)->0,
{
    proof {
        lemma_settled_below(yocto as nat);
    }
    let expected = settle(yocto);
    let text = normalize(raw);
    proof {
        if well_formed(text@) {
            lemma_yocto_bound(text@);
        }
    }
    match parse_well_formed(&text) {
        Some(value) => {
            if value == expected {
                Some(text)
            } else {
                None
            }
        },
        None => None,
    }
}

/// Writes an amount of yoctoNEAR as the text that the registry keeps.
pub fn write_amount(yocto: u128) -> (r: Option<String>)
    ensures
        r is Some <==> kept_text(near_text(yocto), yocto) is Some,
        r is Some ==> r->0@ == kept_text(near_text(yocto), yocto)->0,
{
    let raw = helper_yocto_to_near(yocto);
    accept_text(raw, yocto)
}

/// A kept text reads back as the amount cut down to what writing keeps.
pub proof fn lemma_kept_text_value(raw: Seq<char>, yocto: u128)
    requires
        kept_text(raw, yocto) is Some,
    ensures
        well_formed(kept_text(raw, yocto)->0),
        yocto_of(kept_text(raw, yocto)->0) == settled(yocto as nat),
{
    lemma_settled_below(yocto as nat);
    lemma_yocto_bound(with_fraction(raw));
    assert(with_fraction(with_fraction(raw)) == with_fraction(raw));
}

} // verus!
