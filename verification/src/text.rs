//! Text as sequences of characters: trimming, splitting and numerals.

use vstd::prelude::*;

verus! {

/// Whether `c` counts as whitespace: the answer of `char::is_whitespace`.
pub uninterp spec fn is_whitespace(c: char) -> bool;

/// The lower-case form of `text`: the answer of `str::to_lowercase`.
pub uninterp spec fn lowercase(text: Seq<char>) -> Seq<char>;

/// Calls `char::is_whitespace`, which tells whether a character has the
/// Unicode property White_Space. The result depends on the character alone
/// and is known here only by its name.
#[verifier::external_body]
fn whitespace(c: char) -> (white: bool)
    ensures
        white == is_whitespace(c),
{
    c.is_whitespace()
}

/// Calls `str::to_lowercase`, which maps a string to its lower-case form by
/// the Unicode rules, the same everywhere. The result depends on the text
/// alone and is known here only by its name.
#[verifier::external_body]
pub(crate) fn lowered(text: &str) -> (lower: String)
    ensures
        lower@ == lowercase(text@),
{
    text.to_lowercase()
}

/// `s` without the whitespace at its start.
pub open spec fn trimmed_start(s: Seq<char>) -> Seq<char>
    decreases s.len(),
{
    if s.len() > 0 && is_whitespace(s.first()) {
        trimmed_start(s.drop_first())
    } else {
        s
    }
}

/// `s` without the whitespace at its end.
pub open spec fn trimmed_end(s: Seq<char>) -> Seq<char>
    decreases s.len(),
{
    if s.len() > 0 && is_whitespace(s.last()) {
        trimmed_end(s.drop_last())
    } else {
        s
    }
}

/// `s` without the whitespace at either end.
pub open spec fn trimmed(s: Seq<char>) -> Seq<char> {
    trimmed_end(trimmed_start(s))
}

/// Where `item` first occurs in `s`; the length of `s` where it does not
/// occur.
pub open spec fn position<A>(s: Seq<A>, item: A) -> nat
    decreases s.len(),
{
    if s.len() == 0 || s.first() == item {
        0
    } else {
        1 + position(s.drop_first(), item)
    }
}

/// The pieces of `s` between the occurrences of `delimiter`: one piece more
/// than there are delimiters, empty pieces included.
pub open spec fn split(s: Seq<char>, delimiter: char) -> Seq<Seq<char>>
    decreases s.len(),
{
    let at = position(s, delimiter) as int;
    if at >= s.len() {
        seq![s]
    } else {
        seq![s.take(at)] + split(s.skip(at + 1), delimiter)
    }
}

/// `position` is the least index that holds `item`, and it is the only
/// number that no occurrence precedes and that holds `item` unless it is the
/// length.
pub proof fn lemma_position<A>(s: Seq<A>, item: A, at: int)
    ensures
        position(s, item) <= s.len(),
        position(s, item) < s.len() ==> s[position(s, item) as int] == item,
        forall|k: int| 0 <= k < position(s, item) ==> s[k] != item,
        0 <= at <= s.len() && (at < s.len() ==> s[at] == item) && (forall|k: int|
            0 <= k < at ==> s[k] != item) ==> at == position(s, item),
    decreases s.len(),
{
    if s.len() == 0 || s.first() == item {
    } else {
        let rest = s.drop_first();
        lemma_position(rest, item, at - 1);
        assert forall|k: int| 0 <= k < position(s, item) implies s[k] != item by {
            if k > 0 {
                assert(s[k] == rest[k - 1]);
            }
        }
        if 0 <= at <= s.len() && (at < s.len() ==> s[at] == item) && (forall|k: int|
            0 <= k < at ==> s[k] != item) {
            assert(at > 0) by {
                if at == 0 {
                    assert(s[at] == item);
                }
            }
            assert forall|k: int| 0 <= k < at - 1 implies rest[k] != item by {
                assert(rest[k] == s[k + 1]);
            }
        }
    }
}

/// The trimmed text is one stretch of the text: whitespace alone lies before
/// and behind it, and it neither starts nor ends with whitespace.
pub proof fn lemma_trimmed_is_stretch(s: Seq<char>) -> (bounds: (int, int))
    ensures
        0 <= bounds.0 <= bounds.1 <= s.len(),
        trimmed(s) == s.subrange(bounds.0, bounds.1),
        forall|k: int| 0 <= k < bounds.0 ==> is_whitespace(s[k]),
        forall|k: int| bounds.1 <= k < s.len() ==> is_whitespace(s[k]),
        bounds.0 < bounds.1 ==> !is_whitespace(s[bounds.0]) && !is_whitespace(s[bounds.1 - 1]),
{
    let start = lemma_trimmed_start_is_suffix(s);
    let rest = s.skip(start);
    let end = lemma_trimmed_end_is_prefix(rest);
    assert(rest.take(end) == s.subrange(start, start + end));
    assert forall|k: int| start + end <= k < s.len() implies is_whitespace(s[k]) by {
        assert(s[k] == rest[k - start]);
    }
    if end > 0 {
        assert(rest[0] == s[start]);
        assert(rest[end - 1] == s[start + end - 1]);
    }
    (start, start + end)
}

/// Trimming the start leaves a suffix that does not begin with whitespace,
/// and takes away whitespace alone.
pub proof fn lemma_trimmed_start_is_suffix(s: Seq<char>) -> (start: int)
    ensures
        0 <= start <= s.len(),
        trimmed_start(s) == s.skip(start),
        forall|k: int| 0 <= k < start ==> is_whitespace(s[k]),
        start < s.len() ==> !is_whitespace(s[start]),
    decreases s.len(),
{
    if s.len() > 0 && is_whitespace(s.first()) {
        let rest = s.drop_first();
        let inner = lemma_trimmed_start_is_suffix(rest);
        assert(rest.skip(inner) == s.skip(inner + 1));
        assert forall|k: int| 0 <= k < inner + 1 implies is_whitespace(s[k]) by {
            if k > 0 {
                assert(s[k] == rest[k - 1]);
            }
        }
        if inner + 1 < s.len() {
            assert(s[inner + 1] == rest[inner]);
        }
        inner + 1
    } else {
        assert(s.skip(0) == s);
        0
    }
}

/// Trimming the end leaves a prefix that does not end with whitespace, and
/// takes away whitespace alone.
pub proof fn lemma_trimmed_end_is_prefix(s: Seq<char>) -> (end: int)
    ensures
        0 <= end <= s.len(),
        trimmed_end(s) == s.take(end),
        forall|k: int| end <= k < s.len() ==> is_whitespace(s[k]),
        end > 0 ==> !is_whitespace(s[end - 1]),
    decreases s.len(),
{
    if s.len() > 0 && is_whitespace(s.last()) {
        let rest = s.drop_last();
        let inner = lemma_trimmed_end_is_prefix(rest);
        assert(rest.take(inner) == s.take(inner));
        assert forall|k: int| inner <= k < s.len() implies is_whitespace(s[k]) by {
            if k < s.len() - 1 {
                assert(s[k] == rest[k]);
            }
        }
        if inner > 0 {
            assert(s[inner - 1] == rest[inner - 1]);
        }
        inner
    } else {
        assert(s.take(s.len() as int) == s);
        s.len() as int
    }
}

/// The characters of `text`, in order.
pub fn characters(text: &str) -> (chars: Vec<char>)
    ensures
        chars@ == text@,
{
    let mut chars: Vec<char> = Vec::new();
    for c in iter: text.chars()
        invariant
            iter.seq() == text@,
            chars@ == text@.take(iter.index() as int),
    {
        chars.push(c);
    }
    chars
}

/// Trims the stretch of `chars` from `from` up to `to`: the bounds of what
/// is left of it.
pub(crate) fn trim_bounds(chars: &Vec<char>, from: usize, to: usize) -> (bounds: (usize, usize))
    requires
        from <= to <= chars.len(),
    ensures
        from <= bounds.0 <= bounds.1 <= to,
        chars@.subrange(bounds.0 as int, bounds.1 as int) == trimmed(
            chars@.subrange(from as int, to as int),
        ),
{
    let mut start: usize = from;
    while start < to && whitespace(chars[start])
        invariant
            from <= start <= to <= chars.len(),
            trimmed_start(chars@.subrange(from as int, to as int)) == trimmed_start(
                chars@.subrange(start as int, to as int),
            ),
        decreases to - start,
    {
        assert(chars@.subrange(start as int, to as int).drop_first() == chars@.subrange(
            start + 1,
            to as int,
        ));
        start += 1;
    }
    let mut end: usize = to;
    while end > start && whitespace(chars[end - 1])
        invariant
            start <= end <= to <= chars.len(),
            trimmed_end(chars@.subrange(start as int, to as int)) == trimmed_end(
                chars@.subrange(start as int, end as int),
            ),
        decreases end - start,
    {
        assert(chars@.subrange(start as int, end as int).drop_last() == chars@.subrange(
            start as int,
            end - 1,
        ));
        end -= 1;
    }
    (start, end)
}

/// The text without the whitespace at either end.
pub fn trim(text: &str) -> (kept: &str)
    ensures
        kept@ == trimmed(text@),
{
    let chars = characters(text);
    let (start, end) = trim_bounds(&chars, 0, chars.len());
    assert(chars@.subrange(0, chars.len() as int) == chars@);
    text.substring_char(start, end)
}

/// Looks for `c` in the stretch of `chars` from `from` up to `to`: the index
/// of its first occurrence there, or `to`.
pub(crate) fn find(chars: &Vec<char>, from: usize, to: usize, c: char) -> (at: usize)
    requires
        from <= to <= chars.len(),
    ensures
        from <= at <= to,
        at - from == position(chars@.subrange(from as int, to as int), c),
{
    let mut at: usize = from;
    while at < to && chars[at] != c
        invariant
            from <= at <= to <= chars.len(),
            forall|k: int| from <= k < at ==> chars@[k] != c,
        decreases to - at,
    {
        at += 1;
    }
    proof {
        let stretch = chars@.subrange(from as int, to as int);
        lemma_position(stretch, c, at - from);
    }
    at
}

/// The decimal digit that stands for `value`, for a value under ten.
pub open spec fn digit(value: nat) -> char {
    if value == 0 {
        '0'
    } else if value == 1 {
        '1'
    } else if value == 2 {
        '2'
    } else if value == 3 {
        '3'
    } else if value == 4 {
        '4'
    } else if value == 5 {
        '5'
    } else if value == 6 {
        '6'
    } else if value == 7 {
        '7'
    } else if value == 8 {
        '8'
    } else {
        '9'
    }
}

/// Whether `c` is one of the ten decimal digits.
pub open spec fn is_digit(c: char) -> bool {
    '0' as u32 <= c as u32 <= '9' as u32
}

/// The value of the decimal digit `c`.
pub open spec fn digit_value(c: char) -> nat {
    (c as u32 - '0' as u32) as nat
}

/// Whether `s` holds decimal digits and nothing else.
pub open spec fn all_digits(s: Seq<char>) -> bool {
    forall|k: int| 0 <= k < s.len() ==> is_digit(#[trigger] s[k])
}

/// The number that the decimal digits `s` write, the empty text standing
/// for 0.
pub open spec fn number(s: Seq<char>) -> nat
    decreases s.len(),
{
    if s.len() == 0 {
        0
    } else {
        number(s.drop_last()) * 10 + digit_value(s.last())
    }
}

/// `value` written in decimal digits, without leading zeros.
pub open spec fn decimal(value: nat) -> Seq<char>
    decreases value,
{
    if value < 10 {
        seq![digit(value)]
    } else {
        decimal(value / 10).push(digit(value % 10))
    }
}

/// Reading back what `decimal` wrote gives the value again, and `decimal`
/// writes digits only.
pub proof fn lemma_number_of_decimal(value: nat)
    ensures
        number(decimal(value)) == value,
        all_digits(decimal(value)),
        decimal(value).len() > 0,
    decreases value,
{
    if value < 10 {
        let text = decimal(value);
        assert(text.drop_last().len() == 0);
        assert(number(text.drop_last()) == 0);
        assert(text.last() == digit(value));
    } else {
        let front = decimal(value / 10);
        let text = front.push(digit(value % 10));
        lemma_number_of_decimal(value / 10);
        assert(text.drop_last() == front);
        assert(text.last() == digit(value % 10));
        assert forall|k: int| 0 <= k < text.len() implies is_digit(#[trigger] text[k]) by {
            if k < front.len() {
                assert(text[k] == front[k]);
            }
        }
    }
}

/// Two numbers with the same decimal digits are the same number.
pub proof fn lemma_decimal_is_injective(a: nat, b: nat)
    requires
        decimal(a) == decimal(b),
    ensures
        a == b,
{
    lemma_number_of_decimal(a);
    lemma_number_of_decimal(b);
}

/// The one-character text of the digit for `value`.
fn digit_text(value: u64) -> (text: &'static str)
    requires
        value < 10,
    ensures
        text@ == seq![digit(value as nat)],
{
    proof {
        reveal_strlit("0");
        reveal_strlit("1");
        reveal_strlit("2");
        reveal_strlit("3");
        reveal_strlit("4");
        reveal_strlit("5");
        reveal_strlit("6");
        reveal_strlit("7");
        reveal_strlit("8");
        reveal_strlit("9");
    }
    let text = if value == 0 {
        "0"
    } else if value == 1 {
        "1"
    } else if value == 2 {
        "2"
    } else if value == 3 {
        "3"
    } else if value == 4 {
        "4"
    } else if value == 5 {
        "5"
    } else if value == 6 {
        "6"
    } else if value == 7 {
        "7"
    } else if value == 8 {
        "8"
    } else {
        "9"
    };
    assert(text@ =~= seq![digit(value as nat)]);
    text
}

/// Writes `value` in decimal digits.
pub fn numeral(value: u64) -> (text: String)
    ensures
        text@ == decimal(value as nat),
{
    let mut text = String::from_str(digit_text(value % 10));
    let mut rest: u64 = value / 10;
    while rest > 0
        invariant
            decimal(value as nat) == (if rest > 0 {
                decimal(rest as nat) + text@
            } else {
                text@
            }),
        decreases rest,
    {
        let mut longer = String::from_str(digit_text(rest % 10));
        longer.append(text.as_str());
        proof {
            if rest >= 10 {
                assert(decimal(rest as nat) + text@ == decimal((rest / 10) as nat) + longer@);
            }
        }
        text = longer;
        rest = rest / 10;
    }
    text
}

/// Reads the stretch of `chars` from `from` up to `to` as a decimal number of
/// at most `limit`: `None` where the stretch is empty, holds anything but
/// digits, or writes a greater number.
pub(crate) fn read_number(chars: &Vec<char>, from: usize, to: usize, limit: u32) -> (value: Option<u32>)
    requires
        from <= to <= chars.len(),
    ensures
        value is Some <==> {
            &&& from < to
            &&& all_digits(chars@.subrange(from as int, to as int))
            &&& number(chars@.subrange(from as int, to as int)) <= limit
        },
        value is Some ==> value->0 == number(chars@.subrange(from as int, to as int)),
{
    if from == to {
        return None;
    }
    let bound: u64 = limit as u64 + 1;
    let mut total: u64 = 0;
    let mut at: usize = from;
    while at < to
        invariant
            from <= at <= to <= chars.len(),
            bound == limit + 1,
            all_digits(chars@.subrange(from as int, at as int)),
            total == (if number(chars@.subrange(from as int, at as int)) <= bound {
                number(chars@.subrange(from as int, at as int))
            } else {
                bound as nat
            }),
        decreases to - at,
    {
        let code: u32 = chars[at] as u32;
        let ghost stretch = chars@.subrange(from as int, to as int);
        if code < 48 || code > 57 {
            proof {
                assert(stretch[at - from] == chars@[at as int]);
                assert(!is_digit(stretch[at - from]));
            }
            return None;
        }
        proof {
            let before = chars@.subrange(from as int, at as int);
            let after = chars@.subrange(from as int, at + 1);
            assert(after.drop_last() == before);
            assert(after.last() == chars@[at as int]);
            assert forall|k: int| 0 <= k < after.len() implies is_digit(#[trigger] after[k]) by {
                if k < before.len() {
                    assert(after[k] == before[k]);
                }
            }
        }
        let next: u64 = total * 10 + (code - 48) as u64;
        total = if next > bound {
            bound
        } else {
            next
        };
        at += 1;
    }
    if total > limit as u64 {
        None
    } else {
        Some(total as u32)
    }
}

} // verus!
