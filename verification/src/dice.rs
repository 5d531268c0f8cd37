//! Dice notation (`d20`, `2d6+3`, `1d8 - 1`): parsing, rendering and rolling.
use rand::Rng;
use vstd::prelude::*;

use crate::text::{
    all_digits, chars_of, decimal, digit_value, digits_value, is_digit, is_white_space,
    is_whitespace, lower_ascii, push_char, push_decimal, signed_decimal, to_lower_ascii,
};

verus! {

/// A parsed dice expression: `count` dice of `sides` sides, plus `modifier`.
#[derive(Debug, Clone, Copy, PartialEq, Eq, Structural)]
pub struct DiceExpr {
    pub count: u32,
    pub sides: u32,
    pub modifier: i64,
}

/// Why a dice expression was refused.
#[derive(Debug, Clone, Copy, PartialEq, Eq, Structural)]
pub enum DiceError {
    Empty,
    Malformed,
    BadCount,
    BadSides,
}

impl DiceError {
    /// The human-readable explanation shown next to the input.
    pub fn message(&self) -> (m: &'static str)
        ensures
            m@ == self.spec_message(),
    {
        match self {
            DiceError::Empty => "empty dice expression",
            DiceError::Malformed => "expected NdM notation, e.g. 2d6+3",
            DiceError::BadCount => "dice count must be between 1 and 100",
            DiceError::BadSides => "die must have between 2 and 1000 sides",
        }
    }

    pub open spec fn spec_message(&self) -> Seq<char> {
        match self {
            DiceError::Empty => "empty dice expression"@,
            DiceError::Malformed => "expected NdM notation, e.g. 2d6+3"@,
            DiceError::BadCount => "dice count must be between 1 and 100"@,
            DiceError::BadSides => "die must have between 2 and 1000 sides"@,
        }
    }
}

// ------------------------------------------------------------------ model

pub open spec fn is_sign(c: char) -> bool {
    c == '+' || c == '-'
}

/// The input with whitespace removed and ASCII letters lowered.
pub open spec fn cleaned(s: Seq<char>) -> Seq<char>
    decreases s.len(),
{
    if s.len() == 0 {
        s
    } else {
        let rest = cleaned(s.drop_last());
        if is_white_space(s.last()) {
            rest
        } else {
            rest.push(lower_ascii(s.last()))
        }
    }
}

/// Index of the first `+` or `-` at or after `i`, or `s.len()` when there is none.
pub open spec fn first_sign_from(s: Seq<char>, i: int) -> int
    decreases s.len() - i,
{
    if i >= s.len() {
        s.len() as int
    } else if i < 0 {
        first_sign_from(s, 0)
    } else if is_sign(s[i]) {
        i
    } else {
        first_sign_from(s, i + 1)
    }
}

/// Index of the first `d` at or after `i`, or `s.len()` when there is none.
pub open spec fn first_d_from(s: Seq<char>, i: int) -> int
    decreases s.len() - i,
{
    if i >= s.len() {
        s.len() as int
    } else if i < 0 {
        first_d_from(s, 0)
    } else if s[i] == 'd' {
        i
    } else {
        first_d_from(s, i + 1)
    }
}

/// What `u32::from_str` accepts: an optional `+`, then at least one decimal
/// digit, with a value that fits.
pub open spec fn parse_u32_spec(s: Seq<char>) -> Option<u32> {
    let digits = if s.len() > 0 && s[0] == '+' {
        s.drop_first()
    } else {
        s
    };
    if digits.len() > 0 && all_digits(digits) && digits_value(digits) <= u32::MAX {
        Some(digits_value(digits) as u32)
    } else {
        None
    }
}

/// What `i64::from_str` accepts: an optional sign, then at least one decimal
/// digit, with a value that fits.
pub open spec fn parse_i64_spec(s: Seq<char>) -> Option<i64> {
    if s.len() == 0 {
        None
    } else {
        let negative = s[0] == '-';
        let digits = if is_sign(s[0]) {
            s.drop_first()
        } else {
            s
        };
        if digits.len() == 0 || !all_digits(digits) {
            None
        } else if negative {
            if digits_value(digits) <= 9223372036854775808 {
                Some((-digits_value(digits)) as i64)
            } else {
                None
            }
        } else if digits_value(digits) <= i64::MAX {
            Some(digits_value(digits) as i64)
        } else {
            None
        }
    }
}

/// The result of parsing dice notation `input`.
pub open spec fn parse_spec(input: Seq<char>) -> Result<DiceExpr, DiceError> {
    let c = cleaned(input);
    if c.len() == 0 {
        Err(DiceError::Empty)
    } else {
        let k = first_sign_from(c, 0);
        let dice_part = c.subrange(0, k);
        let modifier = if k < c.len() {
            parse_i64_spec(c.subrange(k, c.len() as int))
        } else {
            Some(0i64)
        };
        match modifier {
            None => Err(DiceError::Malformed),
            Some(m) => {
                let j = first_d_from(dice_part, 0);
                if j >= dice_part.len() {
                    Err(DiceError::Malformed)
                } else {
                    let count_str = dice_part.subrange(0, j);
                    let sides_str = dice_part.subrange(j + 1, dice_part.len() as int);
                    let count = if count_str.len() == 0 {
                        Some(1u32)
                    } else {
                        parse_u32_spec(count_str)
                    };
                    match count {
                        None => Err(DiceError::Malformed),
                        Some(n) => match parse_u32_spec(sides_str) {
                            None => Err(DiceError::Malformed),
                            Some(sides) => if !(1 <= n && n <= 100) {
                                Err(DiceError::BadCount)
                            } else if !(2 <= sides && sides <= 1000) {
                                Err(DiceError::BadSides)
                            } else {
                                Ok(DiceExpr { count: n, sides, modifier: m })
                            },
                        },
                    }
                }
            },
        }
    }
}

/// Whether an expression is one that parsing can produce.
pub open spec fn well_formed(e: DiceExpr) -> bool {
    1 <= e.count && e.count <= 100 && 2 <= e.sides && e.sides <= 1000
}

/// `NdM`, then `+K` or `-K` when the modifier is not zero.
pub open spec fn display_spec(e: DiceExpr) -> Seq<char> {
    let dice = decimal(e.count as nat) + seq!['d'] + decimal(e.sides as nat);
    if e.modifier == 0 {
        dice
    } else if e.modifier > 0 {
        dice + seq!['+'] + decimal(e.modifier as nat)
    } else {
        dice + signed_decimal(e.modifier as int)
    }
}

// ------------------------------------------------------------- exec parse

fn clean_input(input: &str) -> (out: Vec<char>)
    ensures
        out@ == cleaned(input@),
{
    let chars = chars_of(input);
    let mut out: Vec<char> = Vec::new();
    let mut i: usize = 0;
    while i < chars.len()
        invariant
            chars@ == input@,
            i <= chars.len(),
            out@ == cleaned(chars@.take(i as int)),
        decreases chars.len() - i,
    {
        let c = chars[i];
        assert(chars@.take((i + 1) as int).drop_last() =~= chars@.take(i as int));
        if !is_whitespace(c) {
            out.push(to_lower_ascii(c));
        }
        i = i + 1;
    }
    assert(chars@.take(chars.len() as int) =~= chars@);
    out
}

fn find_sign(s: &Vec<char>) -> (k: usize)
    ensures
        k == first_sign_from(s@, 0),
        k <= s.len(),
{
    let mut i: usize = 0;
    while i < s.len() && !(s[i] == '+' || s[i] == '-')
        invariant
            i <= s.len(),
            first_sign_from(s@, 0) == first_sign_from(s@, i as int),
        decreases s.len() - i,
    {
        i = i + 1;
    }
    i
}

fn find_d(s: &Vec<char>) -> (k: usize)
    ensures
        k == first_d_from(s@, 0),
        k <= s.len(),
{
    let mut i: usize = 0;
    while i < s.len() && s[i] != 'd'
        invariant
            i <= s.len(),
            first_d_from(s@, 0) == first_d_from(s@, i as int),
        decreases s.len() - i,
    {
        i = i + 1;
    }
    i
}

fn sub_chars(s: &Vec<char>, from: usize, to: usize) -> (r: Vec<char>)
    requires
        from <= to <= s.len(),
    ensures
        r@ == s@.subrange(from as int, to as int),
{
    let mut r: Vec<char> = Vec::new();
    let mut i = from;
    while i < to
        invariant
            from <= i <= to <= s.len(),
            r@ == s@.subrange(from as int, i as int),
        decreases to - i,
    {
        r.push(s[i]);
        assert(s@.subrange(from as int, (i + 1) as int) =~= s@.subrange(from as int, i as int).push(
            s@[i as int],
        ));
        i = i + 1;
    }
    r
}

/// The value of a prefix never exceeds the value of the whole digit string.
pub proof fn lemma_digits_value_prefix(s: Seq<char>, i: int)
    requires
        all_digits(s),
        0 <= i <= s.len(),
    ensures
        digits_value(s.take(i)) <= digits_value(s),
    decreases s.len(),
{
    if i < s.len() {
        let t = s.drop_last();
        assert(all_digits(t)) by {
            assert forall|j: int| 0 <= j < t.len() implies #[trigger] is_digit(t[j]) by {
                assert(is_digit(s[j]));
            }
        }
        lemma_digits_value_prefix(t, i);
        assert(t.take(i) =~= s.take(i));
        assert(is_digit(s[s.len() - 1]));
    } else {
        assert(s.take(i) =~= s);
    }
}

/// Parses `s[from..]` as decimal digits, refusing values above `limit`.
fn digits_up_to(s: &Vec<char>, from: usize, limit: u64) -> (r: Option<u64>)
    requires
        from <= s.len(),
        limit >= 9,
    ensures
        ({
            let d = s@.subrange(from as int, s@.len() as int);
            r == if d.len() > 0 && all_digits(d) && digits_value(d) <= limit {
                Some(digits_value(d) as u64)
            } else {
                None::<u64>
            }
        }),
{
    let ghost d = s@.subrange(from as int, s@.len() as int);
    if from == s.len() {
        return None;
    }
    let mut acc: u64 = 0;
    let mut i = from;
    while i < s.len()
        invariant
            from <= i <= s.len(),
            d == s@.subrange(from as int, s@.len() as int),
            all_digits(d.take(i - from)),
            acc == digits_value(d.take(i - from)),
            acc <= limit,
            limit >= 9,
        decreases s.len() - i,
    {
        let c = s[i];
        if !('0' <= c && c <= '9') {
            assert(!is_digit(d[i - from]));
            return None;
        }
        let v = (c as u32 - '0' as u32) as u64;
        assert(v == digit_value(c));
        let ghost next = d.take(i - from + 1);
        assert(next.drop_last() =~= d.take(i - from));
        assert(digits_value(next) == acc * 10 + v);
        if acc > (limit - v) / 10 {
            proof {
                assert(acc * 10 + v > limit) by (nonlinear_arith)
                    requires
                        acc > (limit - v) / 10,
                        v <= 9,
                        v <= limit || v > limit,
                ;
                if all_digits(d) {
                    lemma_digits_value_prefix(d, i - from + 1);
                }
            }
            return None;
        }
        assert(acc * 10 + v <= limit) by (nonlinear_arith)
            requires
                acc <= (limit - v) / 10,
                v <= limit,
        ;
        acc = acc * 10 + v;
        assert(all_digits(next)) by {
            assert forall|j: int| 0 <= j < next.len() implies #[trigger] is_digit(next[j]) by {
                if j < next.len() - 1 {
                    assert(next[j] == d.take(i - from)[j]);
                }
            }
        }
        i = i + 1;
    }
    assert(d.take(i - from) =~= d);
    Some(acc)
}

fn parse_u32_chars(s: &Vec<char>) -> (r: Option<u32>)
    ensures
        r == parse_u32_spec(s@),
{
    let from: usize = if s.len() > 0 && s[0] == '+' {
        1
    } else {
        0
    };
    assert(from == 1 ==> s@.subrange(1, s@.len() as int) =~= s@.drop_first());
    assert(from == 0 ==> s@.subrange(0, s@.len() as int) =~= s@);
    match digits_up_to(s, from, 4294967295) {
        Some(v) => Some(v as u32),
        None => None,
    }
}

fn parse_i64_chars(s: &Vec<char>) -> (r: Option<i64>)
    ensures
        r == parse_i64_spec(s@),
{
    if s.len() == 0 {
        return None;
    }
    let negative = s[0] == '-';
    let from: usize = if s[0] == '+' || s[0] == '-' {
        1
    } else {
        0
    };
    assert(from == 1 ==> s@.subrange(1, s@.len() as int) =~= s@.drop_first());
    assert(from == 0 ==> s@.subrange(0, s@.len() as int) =~= s@);
    if negative {
        match digits_up_to(s, from, 9223372036854775808) {
            Some(v) => {
                if v == 9223372036854775808 {
                    Some(i64::MIN)
                } else {
                    Some(-(v as i64))
                }
            },
            None => None,
        }
    } else {
        match digits_up_to(s, from, 9223372036854775807) {
            Some(v) => Some(v as i64),
            None => None,
        }
    }
}

/// Parse dice notation: `d20`, `2d6`, `4d6+3`, `1d8 - 1`.
///
/// Whitespace anywhere is ignored and letters may be in either case. A bare
/// `dM` means one die. The count must be 1 to 100 and the die must have 2 to
/// 1000 sides.
pub fn parse(input: &str) -> (r: Result<DiceExpr, DiceError>)
    ensures
        r == parse_spec(input@),
        r matches Ok(e) ==> well_formed(e),
{
    let c = clean_input(input);
    if c.len() == 0 {
        return Err(DiceError::Empty);
    }
    let k = find_sign(&c);
    let modifier: i64 = if k < c.len() {
        let m = sub_chars(&c, k, c.len());
        match parse_i64_chars(&m) {
            Some(v) => v,
            None => return Err(DiceError::Malformed),
        }
    } else {
        0
    };
    let dice_part = sub_chars(&c, 0, k);
    let j = find_d(&dice_part);
    if j >= dice_part.len() {
        return Err(DiceError::Malformed);
    }
    let count_str = sub_chars(&dice_part, 0, j);
    let sides_str = sub_chars(&dice_part, j + 1, dice_part.len());
    let count: u32 = if count_str.len() == 0 {
        1
    } else {
        match parse_u32_chars(&count_str) {
            Some(v) => v,
            None => return Err(DiceError::Malformed),
        }
    };
    let sides: u32 = match parse_u32_chars(&sides_str) {
        Some(v) => v,
        None => return Err(DiceError::Malformed),
    };
    if !(1 <= count && count <= 100) {
        return Err(DiceError::BadCount);
    }
    if !(2 <= sides && sides <= 1000) {
        return Err(DiceError::BadSides);
    }
    Ok(DiceExpr { count, sides, modifier })
}

impl DiceExpr {
    /// Renders the expression back into notation: `2d6+3`, `1d20`, `4d8-2`.
    pub fn to_string(&self) -> (s: String)
        ensures
            s@ == display_spec(*self),
    {
        let mut s = String::new();
        push_decimal(&mut s, self.count as u64);
        push_char(&mut s, 'd');
        push_decimal(&mut s, self.sides as u64);
        if self.modifier > 0 {
            push_char(&mut s, '+');
            push_decimal(&mut s, self.modifier as u64);
        } else if self.modifier < 0 {
            push_char(&mut s, '-');
            let magnitude: u64 = if self.modifier == i64::MIN {
                9223372036854775808u64
            } else {
                (-self.modifier) as u64
            };
            push_decimal(&mut s, magnitude);
        }
        assert(s@ =~= display_spec(*self));
        s
    }
}

// ------------------------------------------------------------- round trip

/// Rendering a number gives at least one decimal digit, and reading those
/// digits back gives the number.
pub proof fn lemma_decimal(n: nat)
    ensures
        decimal(n).len() >= 1,
        all_digits(decimal(n)),
        digits_value(decimal(n)) == n,
    decreases n,
{
    if n >= 10 {
        lemma_decimal(n / 10);
        let t = decimal(n / 10);
        let s = t.push(crate::text::digit_char((n % 10) as int));
        assert(s.drop_last() =~= t);
        let d = crate::text::digit_char((n % 10) as int);
        assert(digit_value(d) == n % 10);
        assert(digits_value(s) == digits_value(t) * 10 + digit_value(d));
        assert(n == (n / 10) * 10 + n % 10);
        assert(decimal(n) == s);
        assert(digits_value(s) == n);
        assert forall|j: int| 0 <= j < s.len() implies #[trigger] is_digit(s[j]) by {
            if j < t.len() {
                assert(is_digit(t[j]));
            }
        }
    } else {
        let s = decimal(n);
        assert(s.drop_last() =~= Seq::<char>::empty());
        assert(digit_value(crate::text::digit_char(n as int)) == n);
        assert(digits_value(s) == digits_value(s.drop_last()) * 10 + digit_value(s.last()));
        assert(digits_value(s.drop_last()) == 0);
    }
}

pub open spec fn is_notation_char(c: char) -> bool {
    is_digit(c) || c == 'd' || is_sign(c)
}

proof fn lemma_cleaned_notation(s: Seq<char>)
    requires
        forall|i: int| 0 <= i < s.len() ==> #[trigger] is_notation_char(s[i]),
    ensures
        cleaned(s) == s,
    decreases s.len(),
{
    if s.len() > 0 {
        let t = s.drop_last();
        assert forall|i: int| 0 <= i < t.len() implies #[trigger] is_notation_char(t[i]) by {
            assert(is_notation_char(s[i]));
        }
        lemma_cleaned_notation(t);
        assert(is_notation_char(s[s.len() - 1]));
        assert(t.push(s.last()) =~= s);
    }
}

proof fn lemma_first_sign_at(s: Seq<char>, i: int, k: int)
    requires
        0 <= i <= k <= s.len(),
        forall|j: int| i <= j < k ==> !#[trigger] is_sign(s[j]),
        k == s.len() || is_sign(s[k]),
    ensures
        first_sign_from(s, i) == k,
    decreases k - i,
{
    if i < k {
        lemma_first_sign_at(s, i + 1, k);
    }
}

proof fn lemma_first_d_at(s: Seq<char>, i: int, k: int)
    requires
        0 <= i <= k <= s.len(),
        forall|j: int| i <= j < k ==> #[trigger] s[j] != 'd',
        k == s.len() || s[k] == 'd',
    ensures
        first_d_from(s, i) == k,
    decreases k - i,
{
    if i < k {
        lemma_first_d_at(s, i + 1, k);
    }
}

proof fn lemma_parse_u32_decimal(n: u32)
    ensures
        parse_u32_spec(decimal(n as nat)) == Some(n),
{
    lemma_decimal(n as nat);
    assert(is_digit(decimal(n as nat)[0]));
}

proof fn lemma_parse_i64_signed(sign: char, n: nat, m: i64)
    requires
        sign == '+' || sign == '-',
        sign == '+' ==> m == n && n <= i64::MAX,
        sign == '-' ==> m == -n && n <= 9223372036854775808,
    ensures
        parse_i64_spec(seq![sign] + decimal(n)) == Some(m),
{
    lemma_decimal(n);
    let s = seq![sign] + decimal(n);
    assert(s.drop_first() =~= decimal(n));
}

/// Rendering a well-formed expression and parsing the text gives the same
/// expression back.
#[verifier::rlimit(40)]
pub proof fn lemma_display_round_trip(e: DiceExpr)
    requires
        well_formed(e),
    ensures
        parse_spec(display_spec(e)) == Ok::<DiceExpr, DiceError>(e),
{
    let a = decimal(e.count as nat);
    let b = decimal(e.sides as nat);
    lemma_decimal(e.count as nat);
    lemma_decimal(e.sides as nat);
    let dice = a + seq!['d'] + b;
    let t = display_spec(e);
    let (sign, mag): (char, nat) = if e.modifier >= 0 {
        ('+', e.modifier as nat)
    } else {
        ('-', (-e.modifier) as nat)
    };
    lemma_decimal(mag);
    let tail = seq![sign] + decimal(mag);
    if e.modifier == 0 {
        assert(t == dice);
    } else {
        assert(t =~= dice + tail);
    }
    assert forall|i: int| 0 <= i < t.len() implies #[trigger] is_notation_char(t[i]) by {
        if i < a.len() {
            assert(t[i] == a[i]);
            assert(is_digit(a[i]));
        } else if i == a.len() {
        } else if i < dice.len() {
            assert(t[i] == b[i - a.len() - 1]);
            assert(is_digit(b[i - a.len() - 1]));
        } else if i == dice.len() {
        } else {
            assert(t[i] == decimal(mag)[i - dice.len() - 1]);
            assert(is_digit(decimal(mag)[i - dice.len() - 1]));
        }
    }
    lemma_cleaned_notation(t);
    let k = dice.len() as int;
    assert forall|j: int| 0 <= j < k implies !#[trigger] is_sign(t[j]) by {
        if j < a.len() {
            assert(is_digit(a[j]));
        } else if j > a.len() {
            assert(t[j] == b[j - a.len() - 1]);
            assert(is_digit(b[j - a.len() - 1]));
        }
    }
    lemma_first_sign_at(t, 0, k);
    assert(t.subrange(0, k) =~= dice);
    assert forall|j: int| 0 <= j < a.len() implies #[trigger] dice[j] != 'd' by {
        assert(is_digit(a[j]));
    }
    lemma_first_d_at(dice, 0, a.len() as int);
    assert(dice.subrange(0, a.len() as int) =~= a);
    assert(dice.subrange((a.len() + 1) as int, dice.len() as int) =~= b);
    lemma_parse_u32_decimal(e.count);
    lemma_parse_u32_decimal(e.sides);
    if e.modifier != 0 {
        assert(t.subrange(k, t.len() as int) =~= tail);
        lemma_parse_i64_signed(sign, mag, e.modifier);
    }
}

// ------------------------------------------------------------------ rolling

/// The result of rolling an expression.
#[derive(Debug, Clone)]
pub struct RollOutcome {
    pub expression: String,
    pub rolls: Vec<u32>,
    pub modifier: i64,
    pub total: i64,
    /// Set for a single d20: whether it was a natural 20 or natural 1.
    pub critical: Option<bool>,
}

/// The sum of the faces rolled.
pub open spec fn roll_sum(s: Seq<u32>) -> int
    decreases s.len(),
{
    if s.len() == 0 {
        0
    } else {
        roll_sum(s.drop_last()) + s.last()
    }
}

/// A natural 20 or natural 1 on a single d20; nothing otherwise.
pub open spec fn critical_spec(e: DiceExpr, rolls: Seq<u32>) -> Option<bool> {
    if e.count == 1 && e.sides == 20 {
        if rolls[0] == 20 {
            Some(true)
        } else if rolls[0] == 1 {
            Some(false)
        } else {
            None
        }
    } else {
        None
    }
}

/// `o` reports rolling `e` with the faces `rolls`.
pub open spec fn is_outcome_of(o: RollOutcome, e: DiceExpr, rolls: Seq<u32>) -> bool {
    &&& o.expression@ == display_spec(e)
    &&& o.rolls@ == rolls
    &&& o.modifier == e.modifier
    &&& o.total == roll_sum(rolls) + e.modifier
    &&& o.critical == critical_spec(e, rolls)
}

/// A critical reads the die, not the total: on a single d20 it is a success
/// exactly when the face is 20 and a failure exactly when the face is 1,
/// whatever the modifier; the total is that face plus the modifier. Any other
/// expression never reports a critical.
pub proof fn lemma_critical_reads_the_face(o: RollOutcome, e: DiceExpr, rolls: Seq<u32>)
    requires
        is_outcome_of(o, e, rolls),
        rolls.len() == e.count,
    ensures
        e.count == 1 && e.sides == 20 ==> {
            &&& (o.critical == Some(true)) == (o.rolls@[0] == 20)
            &&& (o.critical == Some(false)) == (o.rolls@[0] == 1)
            &&& o.total == o.rolls@[0] + o.modifier
        },
        !(e.count == 1 && e.sides == 20) ==> o.critical is None,
{
    if rolls.len() == 1 {
        assert(rolls.drop_last().len() == 0);
        assert(roll_sum(rolls.drop_last()) == 0);
        assert(rolls.last() == rolls[0]);
        assert(roll_sum(rolls) == rolls[0]);
    }
}

proof fn lemma_roll_sum_prefix(s: Seq<u32>, i: int)
    requires
        0 <= i <= s.len(),
    ensures
        0 <= roll_sum(s.take(i)) <= roll_sum(s),
    decreases s.len(),
{
    if i < s.len() {
        lemma_roll_sum_prefix(s.drop_last(), i);
        assert(s.drop_last().take(i) =~= s.take(i));
    } else {
        assert(s.take(i) =~= s);
        lemma_roll_sum_nonneg(s);
    }
}

proof fn lemma_roll_sum_nonneg(s: Seq<u32>)
    ensures
        roll_sum(s) >= 0,
    decreases s.len(),
{
    if s.len() > 0 {
        lemma_roll_sum_nonneg(s.drop_last());
    }
}

proof fn lemma_roll_sum_bound(s: Seq<u32>, bound: int)
    requires
        bound >= 0,
        forall|i: int| 0 <= i < s.len() ==> #[trigger] s[i] <= bound,
    ensures
        roll_sum(s) <= s.len() * bound,
    decreases s.len(),
{
    if s.len() > 0 {
        let t = s.drop_last();
        assert forall|i: int| 0 <= i < t.len() implies #[trigger] t[i] <= bound by {
            assert(t[i] == s[i]);
        }
        lemma_roll_sum_bound(t, bound);
        assert(s.last() <= bound);
        assert(t.len() * bound + bound == s.len() * bound) by (nonlinear_arith)
            requires
                t.len() + 1 == s.len(),
        ;
    }
}

/// Builds the outcome of rolling `expr` once the faces are known.
pub fn outcome_from_rolls(expr: DiceExpr, rolls: Vec<u32>) -> (o: RollOutcome)
    requires
        rolls.len() == expr.count,
        roll_sum(rolls@) <= i64::MAX,
        roll_sum(rolls@) + expr.modifier <= i64::MAX,
    ensures
        is_outcome_of(o, expr, rolls@),
{
    let mut sum: i64 = 0;
    let mut i: usize = 0;
    while i < rolls.len()
        invariant
            i <= rolls.len(),
            sum == roll_sum(rolls@.take(i as int)),
            roll_sum(rolls@) <= i64::MAX,
        decreases rolls.len() - i,
    {
        proof {
            lemma_roll_sum_prefix(rolls@, i + 1);
            assert(rolls@.take(i + 1).drop_last() =~= rolls@.take(i as int));
        }
        sum = sum + rolls[i] as i64;
        i = i + 1;
    }
    assert(rolls@.take(rolls.len() as int) =~= rolls@);
    proof {
        lemma_roll_sum_nonneg(rolls@);
    }
    let critical = if expr.count == 1 && expr.sides == 20 {
        if rolls[0] == 20 {
            Some(true)
        } else if rolls[0] == 1 {
            Some(false)
        } else {
            None
        }
    } else {
        None
    };
    RollOutcome {
        expression: expr.to_string(),
        rolls,
        modifier: expr.modifier,
        total: sum + expr.modifier,
        critical,
    }
}

/// Roll each die using `next`, a source of values in `1..=sides`.
///
/// Split out from the random source so it can be tested deterministically.
pub fn roll_with<F: Fn(u32) -> u32>(expr: DiceExpr, next: F) -> (o: RollOutcome)
    requires
        expr.count > 0 ==> call_requires(next, (expr.sides,)),
        forall|r: u32| #[trigger] call_ensures(next, (expr.sides,), r) ==> r <= expr.sides,
        expr.count * expr.sides <= i64::MAX,
        expr.count * expr.sides + expr.modifier <= i64::MAX,
    ensures
        o.rolls.len() == expr.count,
        forall|i: int|
            0 <= i < expr.count ==> call_ensures(next, (expr.sides,), #[trigger] o.rolls@[i]),
        is_outcome_of(o, expr, o.rolls@),
{
    let mut rolls: Vec<u32> = Vec::new();
    let mut i: u32 = 0;
    while i < expr.count
        invariant
            i <= expr.count,
            rolls.len() == i,
            expr.count > 0 ==> call_requires(next, (expr.sides,)),
            forall|r: u32| #[trigger] call_ensures(next, (expr.sides,), r) ==> r <= expr.sides,
            forall|j: int| 0 <= j < i ==> call_ensures(next, (expr.sides,), #[trigger] rolls@[j]),
        decreases expr.count - i,
    {
        let r = next(expr.sides);
        rolls.push(r);
        i = i + 1;
    }
    proof {
        assert forall|j: int| 0 <= j < rolls@.len() implies #[trigger] rolls@[j] <= expr.sides by {
            assert(call_ensures(next, (expr.sides,), rolls@[j]));
        }
        lemma_roll_sum_bound(rolls@, expr.sides as int);
    }
    outcome_from_rolls(expr, rolls)
}

/// One uniformly random face of a die with `sides` sides.
/// Trusted: `rand::Rng::gen_range` over `1..=sides` on the thread-local
/// generator returns a value inside that range; which value is left unsaid.
#[verifier::external_body]
fn random_face(sides: u32) -> (r: u32)
    requires
        sides >= 1,
    ensures
        1 <= r <= sides,
{
    rand::thread_rng().gen_range(1..=sides)
}

/// Roll an expression with the thread-local random generator.
pub fn roll(expr: DiceExpr) -> (o: RollOutcome)
    requires
        expr.count > 0 ==> expr.sides >= 1,
        expr.count * expr.sides <= i64::MAX,
        expr.count * expr.sides + expr.modifier <= i64::MAX,
    ensures
        o.rolls.len() == expr.count,
        forall|i: int| 0 <= i < expr.count ==> 1 <= #[trigger] o.rolls@[i] <= expr.sides,
        is_outcome_of(o, expr, o.rolls@),
{
    let face = |s: u32| -> (r: u32)
        requires
            s >= 1,
        ensures
            1 <= r <= s,
        { random_face(s) };
    roll_with(expr, face)
}

/// `d20` parses to a single twenty-sided die.
pub proof fn lemma_parse_d20()
    ensures
        parse_spec("d20"@) == Ok::<DiceExpr, DiceError>(DiceExpr { count: 1, sides: 20, modifier: 0 }),
{
    reveal_strlit("d20");
    let t = "d20"@;
    assert(is_digit(t[1]) && is_digit(t[2]));
    lemma_cleaned_notation(t);
    lemma_first_sign_at(t, 0, 3);
    assert(t.subrange(0, 3) =~= t);
    lemma_first_d_at(t, 0, 0);
    let sides = t.subrange(1, 3);
    assert(sides =~= seq!['2', '0']);
    assert(sides.drop_last() =~= seq!['2']);
    assert(seq!['2'].drop_last() =~= Seq::<char>::empty());
    assert(all_digits(sides));
    assert(digit_value('2') == 2);
    assert(digit_value('0') == 0);
    assert(digits_value(Seq::<char>::empty()) == 0);
    assert(seq!['2'].last() == '2');
    assert(digits_value(seq!['2']) == 2);
    assert(digits_value(sides) == 20);
    assert(t.subrange(0, 0).len() == 0);
}

} // verus!
