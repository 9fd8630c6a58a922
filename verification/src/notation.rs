//! The textual notation of a star polygon: `n` or `n/k`, in decimal digits.
//!
//! The grammar is stated once, as `parse_result` over a sequence of characters,
//! and `parse_polygon` is proved to compute it. `render_text` is the canonical
//! rendering, and `lemma_parse_render` shows that parsing undoes it.
use vstd::prelude::*;
use vstd::string::*;

verus! {

/// A star polygon `{n/k}`: `n` vertices, each joined to the one `k` steps ahead.
///
/// Neither field is restricted: `n == 0` is an empty polygon, and `k` need not be
/// coprime to `n`, nor smaller than it.
#[derive(Clone, Copy, Debug, PartialEq, Eq, Structural)]
pub struct PolygonSpec {
    pub n: usize,
    pub k: usize,
}

/// The character that separates the order from the step.
pub const SLASH: char = '/';

/// `c` is one of the ten ASCII decimal digits.
pub open spec fn is_digit(c: char) -> bool {
    '0' <= c && c <= '9'
}

/// The characters that the notation is made of: the digits and the slash.
pub open spec fn is_notation_char(c: char) -> bool {
    is_digit(c) || c == SLASH
}

/// The value of a decimal digit; 0 for any other character.
pub open spec fn digit_value(c: char) -> nat {
    if is_digit(c) {
        (c as u32 - '0' as u32) as nat
    } else {
        0
    }
}

/// Every character of `s` is a decimal digit.
pub open spec fn all_digits(s: Seq<char>) -> bool {
    forall|i: int| 0 <= i < s.len() ==> is_digit(#[trigger] s[i])
}

/// The number that the digits of `s` write in base ten, most significant first.
pub open spec fn decimal_value(s: Seq<char>) -> nat
    decreases s.len(),
{
    if s.len() == 0 {
        0
    } else {
        10 * decimal_value(s.drop_last()) + digit_value(s.last())
    }
}

/// What one numeric section stands for: a number, when the section is a
/// non-empty run of digits whose value fits the machine word.
pub open spec fn number_of(s: Seq<char>) -> Option<usize> {
    if s.len() > 0 && all_digits(s) && decimal_value(s) <= usize::MAX {
        Some(decimal_value(s) as usize)
    } else {
        None
    }
}

/// The index of the first `/` of `s` at or after `from`, or `s.len()` if there is none.
pub open spec fn find_slash(s: Seq<char>, from: int) -> int
    decreases s.len() - from,
{
    if from < 0 || from >= s.len() {
        s.len() as int
    } else if s[from] == SLASH {
        from
    } else {
        find_slash(s, from + 1)
    }
}

/// The grammar `digits ( '/' digits )?` with its error positions.
///
/// * Without a slash the whole text is the order, and the step is 1; a text that
///   is no number is rejected at position 0.
/// * With one slash, a bad order is rejected at position 0 and a bad step at the
///   position just behind the slash.
/// * With more slashes the text is rejected at the position of the second one,
///   whatever stands around it.
pub open spec fn parse_result(s: Seq<char>) -> Result<PolygonSpec, usize> {
    let first = find_slash(s, 0);
    if first >= s.len() {
        match number_of(s) {
            Some(n) => Ok(PolygonSpec { n, k: 1 }),
            None => Err(0),
        }
    } else {
        let second = find_slash(s, first + 1);
        if second < s.len() {
            Err(second as usize)
        } else {
            match number_of(s.subrange(0, first)) {
                None => Err(0),
                Some(n) => match number_of(s.subrange(first + 1, s.len() as int)) {
                    None => Err((first + 1) as usize),
                    Some(k) => Ok(PolygonSpec { n, k }),
                },
            }
        }
    }
}

/// `find_slash` gives the least index at or after `from` that holds a slash.
pub proof fn lemma_find_slash(s: Seq<char>, from: int)
    requires
        0 <= from <= s.len(),
    ensures
        from <= find_slash(s, from) <= s.len(),
        find_slash(s, from) < s.len() ==> s[find_slash(s, from)] == SLASH,
        forall|j: int| from <= j < find_slash(s, from) ==> #[trigger] s[j] != SLASH,
    decreases s.len() - from,
{
    if from < s.len() && s[from] != SLASH {
        lemma_find_slash(s, from + 1);
    }
}

/// An index that holds the first slash at or after `from`, or the length where
/// there is none, is what `find_slash` gives.
pub proof fn lemma_find_slash_is(s: Seq<char>, from: int, at: int)
    requires
        0 <= from <= at <= s.len(),
        forall|j: int| from <= j < at ==> #[trigger] s[j] != SLASH,
        at < s.len() ==> s[at] == SLASH,
    ensures
        find_slash(s, from) == at,
    decreases at - from,
{
    if from < at {
        lemma_find_slash_is(s, from + 1, at);
    }
}

/// A prefix of a text never writes a larger number than the text.
pub proof fn lemma_decimal_value_prefix(s: Seq<char>, len: int)
    requires
        0 <= len <= s.len(),
    ensures
        decimal_value(s.subrange(0, len)) <= decimal_value(s),
    decreases s.len() - len,
{
    if len == s.len() {
        assert(s.subrange(0, len) =~= s);
    } else {
        lemma_decimal_value_prefix(s.drop_last(), len);
        assert(s.drop_last().subrange(0, len) =~= s.subrange(0, len));
    }
}

/// A text is rejected at a position in it or just behind its end, never
/// further out.
pub proof fn lemma_error_position_in_text(s: Seq<char>)
    requires
        s.len() <= usize::MAX,
    ensures
        parse_result(s) is Err ==> parse_result(s)->Err_0 <= s.len(),
{
    lemma_find_slash(s, 0);
    let first = find_slash(s, 0);
    if first < s.len() {
        lemma_find_slash(s, first + 1);
    }
}

/// The first `/` of `chars` at or after `from`, or the length if there is none.
fn find_slash_from(chars: &Vec<char>, from: usize) -> (at: usize)
    requires
        from <= chars.len(),
    ensures
        at == find_slash(chars@, from as int),
        from <= at <= chars.len(),
{
    let mut i: usize = from;
    while i < chars.len() && chars[i] != SLASH
        invariant
            from <= i <= chars.len(),
            find_slash(chars@, i as int) == find_slash(chars@, from as int),
        decreases chars.len() - i,
    {
        i += 1;
    }
    i
}

/// Reads the section `chars[from..to]` as a number.
fn parse_number(chars: &Vec<char>, from: usize, to: usize) -> (number: Option<usize>)
    requires
        from <= to <= chars.len(),
    ensures
        number == number_of(chars@.subrange(from as int, to as int)),
{
    let ghost section = chars@.subrange(from as int, to as int);
    if from == to {
        return None;
    }
    let mut value: usize = 0;
    let mut i: usize = from;
    while i < to
        invariant
            from <= i <= to <= chars.len(),
            section == chars@.subrange(from as int, to as int),
            all_digits(section.subrange(0, i - from)),
            value == decimal_value(section.subrange(0, i - from)),
        decreases to - i,
    {
        let c = chars[i];
        let ghost before = section.subrange(0, i - from);
        let ghost after = section.subrange(0, i + 1 - from);
        proof {
            assert(after.drop_last() =~= before);
        }
        if !(c >= '0' && c <= '9') {
            proof {
                assert(section[i - from] == c);
            }
            return None;
        }
        let digit: usize = (c as u32 - '0' as u32) as usize;
        if value > (usize::MAX - digit) / 10 {
            proof {
                lemma_decimal_value_prefix(section, i + 1 - from);
            }
            return None;
        }
        value = value * 10 + digit;
        i += 1;
        proof {
            assert forall|j: int| 0 <= j < after.len() implies is_digit(#[trigger] after[j]) by {
                if j < before.len() {
                    assert(before[j] == after[j]);
                }
            }
        }
    }
    proof {
        assert(section.subrange(0, to - from) =~= section);
    }
    Some(value)
}

/// The characters of `text`, in order.
fn chars_of(text: &str) -> (chars: Vec<char>)
    ensures
        chars@ == text@,
{
    let len = text.unicode_len();
    let mut chars: Vec<char> = Vec::new();
    let mut i: usize = 0;
    while i < len
        invariant
            i <= len,
            len == text@.len(),
            chars@ == text@.subrange(0, i as int),
        decreases len - i,
    {
        chars.push(text.get_char(i));
        i += 1;
    }
    chars
}

/// Reads a polygon from its notation, or gives the position, counted in
/// characters from 0, at which the text stops being one.
///
/// The text is whatever the user has typed so far, so every text has an answer.
/// Any number that fits the machine word is taken, as order or as step: the
/// order 0 is read like any other, and stands for the empty polygon.
pub fn parse_polygon(text: &str) -> (result: Result<PolygonSpec, usize>)
    ensures
        result == parse_result(text@),
{
    let chars = chars_of(text);
    let len = chars.len();
    let first = find_slash_from(&chars, 0);
    if first >= len {
        proof {
            assert(chars@.subrange(0, len as int) =~= chars@);
        }
        match parse_number(&chars, 0, len) {
            Some(n) => Ok(PolygonSpec { n, k: 1 }),
            None => Err(0),
        }
    } else {
        let second = find_slash_from(&chars, first + 1);
        if second < len {
            Err(second)
        } else {
            match parse_number(&chars, 0, first) {
                None => Err(0),
                Some(n) => match parse_number(&chars, first + 1, len) {
                    None => Err(first + 1),
                    Some(k) => Ok(PolygonSpec { n, k }),
                },
            }
        }
    }
}

/// `String::push` of std appends the one character to the end of the string and
/// leaves what was there as it was.
pub assume_specification[ String::push ](s: &mut String, ch: char)
    ensures
        final(s)@ == old(s)@.push(ch),
;

/// The character that writes the digit `d`.
pub open spec fn digit_char(d: nat) -> char
    recommends
        d < 10,
{
    ((48 + d) as u8) as char
}

/// The decimal digits of `n`, most significant first, without leading zeros;
/// the number 0 is written `0`.
pub open spec fn decimal_digits(n: nat) -> Seq<char>
    decreases n,
{
    if n < 10 {
        seq![digit_char(n)]
    } else {
        decimal_digits(n / 10).push(digit_char(n % 10))
    }
}

/// The canonical notation: the order alone where the step is 1, else the order,
/// a slash and the step.
pub open spec fn render_text(spec: PolygonSpec) -> Seq<char> {
    if spec.k == 1 {
        decimal_digits(spec.n as nat)
    } else {
        decimal_digits(spec.n as nat).push(SLASH) + decimal_digits(spec.k as nat)
    }
}

/// The digits of a number are a non-empty run of digits that writes that number.
pub proof fn lemma_decimal_digits(n: nat)
    ensures
        decimal_digits(n).len() > 0,
        all_digits(decimal_digits(n)),
        decimal_value(decimal_digits(n)) == n,
    decreases n,
{
    let s = decimal_digits(n);
    if n < 10 {
        assert(decimal_value(s.drop_last()) == 0);
    } else {
        lemma_decimal_digits(n / 10);
        assert(s.drop_last() =~= decimal_digits(n / 10));
    }
}

/// A number that fits the machine word is read back from its digits.
pub proof fn lemma_number_of_digits(n: usize)
    ensures
        number_of(decimal_digits(n as nat)) == Some(n),
        find_slash(decimal_digits(n as nat), 0) == decimal_digits(n as nat).len(),
{
    let s = decimal_digits(n as nat);
    lemma_decimal_digits(n as nat);
    lemma_find_slash_is(s, 0, s.len() as int);
}

/// Parsing undoes rendering: the canonical notation of any polygon parses, and
/// gives that polygon back. Where the step is 1 the notation has no divisor, and
/// the step that is read is again 1.
pub proof fn lemma_parse_render(spec: PolygonSpec)
    ensures
        parse_result(render_text(spec)) == Ok::<PolygonSpec, usize>(spec),
{
    let order = decimal_digits(spec.n as nat);
    let step = decimal_digits(spec.k as nat);
    lemma_number_of_digits(spec.n);
    lemma_decimal_digits(spec.k as nat);
    if spec.k != 1 {
        let s = render_text(spec);
        let first = order.len() as int;
        lemma_find_slash_is(s, 0, first);
        lemma_find_slash_is(s, first + 1, s.len() as int);
        assert(s.subrange(0, first) =~= order);
        assert(s.subrange(first + 1, s.len() as int) =~= step);
    }
}

/// The canonical notation holds a slash exactly where the step is not 1.
pub proof fn lemma_render_has_divisor(spec: PolygonSpec)
    ensures
        render_text(spec).contains(SLASH) <==> spec.k != 1,
{
    let s = render_text(spec);
    let order = decimal_digits(spec.n as nat);
    lemma_decimal_digits(spec.n as nat);
    if spec.k == 1 {
        assert forall|i: int| 0 <= i < s.len() implies s[i] != SLASH by {
            assert(is_digit(s[i]));
        }
    } else {
        assert(s[order.len() as int] == SLASH);
    }
}

/// The canonical notation is made of notation characters alone.
pub proof fn lemma_render_chars(spec: PolygonSpec)
    ensures
        forall|i: int|
            0 <= i < render_text(spec).len() ==> is_notation_char(#[trigger] render_text(spec)[i]),
{
    let order = decimal_digits(spec.n as nat);
    let step = decimal_digits(spec.k as nat);
    lemma_decimal_digits(spec.n as nat);
    lemma_decimal_digits(spec.k as nat);
    assert forall|i: int| 0 <= i < render_text(spec).len() implies is_notation_char(
        #[trigger] render_text(spec)[i],
    ) by {
        if i < order.len() {
            assert(is_digit(order[i]));
        } else if spec.k != 1 && i > order.len() {
            assert(is_digit(step[i - order.len() - 1]));
        }
    }
}

/// A text that is a polygon is made of notation characters alone.
pub proof fn lemma_parsed_text_chars(s: Seq<char>)
    requires
        parse_result(s) is Ok,
    ensures
        forall|i: int| 0 <= i < s.len() ==> is_notation_char(#[trigger] s[i]),
{
    lemma_find_slash(s, 0);
    let first = find_slash(s, 0);
    assert forall|i: int| 0 <= i < s.len() implies is_notation_char(#[trigger] s[i]) by {
        if first < s.len() {
            if i < first {
                assert(s.subrange(0, first)[i] == s[i]);
            } else if i > first {
                assert(s.subrange(first + 1, s.len() as int)[i - first - 1] == s[i]);
            }
        }
    }
}

/// Rendering what was parsed from a canonical notation gives that notation again.
pub proof fn lemma_render_parse_render(spec: PolygonSpec)
    ensures
        parse_result(render_text(spec)) is Ok,
        render_text(parse_result(render_text(spec))->Ok_0) == render_text(spec),
{
    lemma_parse_render(spec);
}

/// Appends the decimal digits of `n` to `out`.
fn push_decimal(out: &mut String, n: usize)
    ensures
        final(out)@ == old(out)@ + decimal_digits(n as nat),
    decreases n,
{
    if n >= 10 {
        push_decimal(out, n / 10);
    }
    let digit: u8 = (n % 10) as u8;
    out.push((48u8 + digit) as char);
}

/// The canonical notation of a polygon: `n` where the step is 1, else `n/k`.
pub fn render(spec: &PolygonSpec) -> (text: String)
    ensures
        text@ == render_text(*spec),
{
    let mut text = String::new();
    push_decimal(&mut text, spec.n);
    if spec.k != 1 {
        text.push(SLASH);
        push_decimal(&mut text, spec.k);
    }
    text
}

impl PolygonSpec {
    /// The canonical notation of this polygon.
    pub fn to_string(&self) -> (text: String)
        ensures
            text@ == render_text(*self),
    {
        render(self)
    }
}

} // verus!
