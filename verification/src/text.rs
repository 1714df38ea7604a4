//! Text as sequences of characters: numbers in decimal, joining, trimming and ordering.
use vstd::prelude::*;
use vstd::string::StringExecFns;
use vstd::string::StrSliceExecFns;

verus! {

/// The decimal digit with value `d`.
pub open spec fn digit_char(d: int) -> char {
    (48 + d) as char
}

/// `n` in decimal, without leading zeros.
pub open spec fn decimal(n: nat) -> Seq<char>
    decreases n,
{
    if n < 10 {
        seq![digit_char(n as int)]
    } else {
        decimal(n / 10).push(digit_char((n % 10) as int))
    }
}

/// The sign that precedes the digits of `n`.
pub open spec fn sign(n: int) -> Seq<char> {
    if n < 0 {
        seq!['-']
    } else {
        Seq::empty()
    }
}

/// The distance of `n` from zero.
pub open spec fn magnitude(n: int) -> nat {
    if n < 0 {
        (-n) as nat
    } else {
        n as nat
    }
}

/// `n` in decimal, with a sign where it is negative.
pub open spec fn signed(n: int) -> Seq<char> {
    sign(n) + decimal(magnitude(n))
}

/// A run of zero digits.
pub open spec fn zeros(count: nat) -> Seq<char> {
    Seq::new(count, |i: int| '0')
}

/// `n` in decimal, widened with zeros after the sign to at least `width` characters.
pub open spec fn padded(n: int, width: nat) -> Seq<char> {
    let used = sign(n).len() + decimal(magnitude(n)).len();
    let fill = if used < width {
        (width - used) as nat
    } else {
        0nat
    };
    sign(n) + zeros(fill) + decimal(magnitude(n))
}

/// A number of thousandths with its three decimals.
pub open spec fn thousandths(n: int) -> Seq<char> {
    sign(n) + decimal(magnitude(n) / 1000) + seq!['.'] + padded((magnitude(n) % 1000) as int, 3)
}

/// Up to here a number of thousandths and the nearest floating-point number show the same three
/// decimals.
pub const EXACT_THOUSANDTHS: i64 = 4_000_000_000_000_000;

/// A number of thousandths whose three decimals are exact in floating point too.
pub open spec fn shows_exactly(n: int) -> bool {
    -EXACT_THOUSANDTHS <= n <= EXACT_THOUSANDTHS
}

/// Appends one decimal digit.
fn push_digit(out: &mut String, digit: u8)
    requires
        digit < 10,
    ensures
        final(out)@ == old(out)@.push(digit_char(digit as int)),
{
    proof {
        reveal_strlit("0");
        reveal_strlit("1");
        reveal_strlit("2");
        reveal_strlit("3");
        reveal_strlit("4");
        reveal_strlit("5");
        reveal_strlit("6");
        reveal_strlit("7");
        reveal_strlit("8");
        reveal_strlit("9");
    }
    let text = match digit {
        0 => "0",
        1 => "1",
        2 => "2",
        3 => "3",
        4 => "4",
        5 => "5",
        6 => "6",
        7 => "7",
        8 => "8",
        _ => "9",
    };
    assert(text@ =~= seq![digit_char(digit as int)]);
    out.append(text);
    assert(out@ =~= old(out)@.push(digit_char(digit as int)));
}

/// Appends `n` in decimal.
pub fn push_decimal(out: &mut String, n: u128)
    ensures
        final(out)@ == old(out)@ + decimal(n as nat),
    decreases n,
{
    let ghost before = out@;
    if n >= 10 {
        push_decimal(out, n / 10);
    }
    push_digit(out, (n % 10) as u8);
    assert(out@ =~= before + decimal(n as nat));
}

/// Appends a run of zero digits.
fn push_zeros(out: &mut String, count: usize)
    ensures
        final(out)@ == old(out)@ + zeros(count as nat),
{
    let ghost before = out@;
    let mut i: usize = 0;
    assert(out@ =~= before + zeros(0));
    while i < count
        invariant
            i <= count,
            out@ == before + zeros(i as nat),
        decreases count - i,
    {
        push_digit(out, 0);
        i = i + 1;
        assert(out@ =~= before + zeros(i as nat));
    }
}

/// Appends the sign of `n` and returns its distance from zero.
fn push_sign(out: &mut String, n: i128) -> (size: u128)
    ensures
        final(out)@ == old(out)@ + sign(n as int),
        size == magnitude(n as int),
{
    if n < 0 {
        proof {
            reveal_strlit("-");
        }
        assert("-"@ =~= seq!['-']);
        out.append("-");
        (-(n + 1)) as u128 + 1
    } else {
        assert(out@ =~= old(out)@ + sign(n as int));
        n as u128
    }
}

/// Appends `n` in decimal, with a sign where it is negative.
pub fn push_signed(out: &mut String, n: i128)
    ensures
        final(out)@ == old(out)@ + signed(n as int),
{
    let ghost before = out@;
    let size = push_sign(out, n);
    push_decimal(out, size);
    assert(out@ =~= before + signed(n as int));
}

/// Appends `n` widened with zeros to at least `width` characters.
pub fn push_padded(out: &mut String, n: i128, width: usize)
    ensures
        final(out)@ == old(out)@ + padded(n as int, width as nat),
{
    let ghost before = out@;
    let mut body = String::new();
    let size = push_sign(out, n);
    push_decimal(&mut body, size);
    assert(body@ =~= decimal(size as nat));
    let digits: usize = body.as_str().unicode_len();
    let lead: usize = if n < 0 { 1 } else { 0 };
    if lead < width && digits < width - lead {
        push_zeros(out, width - lead - digits);
    } else {
        assert(out@ =~= out@ + zeros(0));
    }
    out.append(body.as_str());
    assert(out@ =~= before + padded(n as int, width as nat));
}

/// Appends a number of thousandths with its three decimals.
pub fn push_thousandths(out: &mut String, n: i64)
    ensures
        final(out)@ == old(out)@ + thousandths(n as int),
{
    let ghost before = out@;
    let size = push_sign(out, n as i128);
    push_decimal(out, size / 1000);
    proof {
        reveal_strlit(".");
    }
    assert("."@ =~= seq!['.']);
    out.append(".");
    push_padded(out, (size % 1000) as i128, 3);
    assert(out@ =~= before + thousandths(n as int));
}

/// A hexadecimal digit in lower case.
pub open spec fn hex_char(d: int) -> char {
    if d < 10 {
        (48 + d) as char
    } else {
        (87 + d) as char
    }
}

/// A sixteen-bit number as four hexadecimal digits.
pub open spec fn hex4(n: u16) -> Seq<char> {
    seq![
        hex_char(n as int / 4096),
        hex_char(n as int / 256 % 16),
        hex_char(n as int / 16 % 16),
        hex_char(n as int % 16),
    ]
}

/// Appends one hexadecimal digit.
fn push_hex_digit(out: &mut String, digit: u16)
    requires
        digit < 16,
    ensures
        final(out)@ == old(out)@.push(hex_char(digit as int)),
{
    if digit < 10 {
        push_digit(out, digit as u8);
    } else {
        proof {
            reveal_strlit("a");
            reveal_strlit("b");
            reveal_strlit("c");
            reveal_strlit("d");
            reveal_strlit("e");
            reveal_strlit("f");
        }
        let text = match digit {
            10 => "a",
            11 => "b",
            12 => "c",
            13 => "d",
            14 => "e",
            _ => "f",
        };
        assert(text@ =~= seq![hex_char(digit as int)]);
        out.append(text);
        assert(out@ =~= old(out)@.push(hex_char(digit as int)));
    }
}

/// Appends a sixteen-bit number as four hexadecimal digits.
pub fn push_hex4(out: &mut String, n: u16)
    ensures
        final(out)@ == old(out)@ + hex4(n),
{
    let ghost before = out@;
    push_hex_digit(out, n / 4096);
    push_hex_digit(out, n / 256 % 16);
    push_hex_digit(out, n / 16 % 16);
    push_hex_digit(out, n % 16);
    assert(out@ =~= before + hex4(n));
}

/// The characters of `text`.
pub fn chars_of(text: &str) -> (chars: Vec<char>)
    ensures
        chars@ == text@,
{
    let mut chars: Vec<char> = Vec::new();
    for c in iter: text.chars()
        invariant
            chars@ == iter.seq().take(iter.index()),
    {
        chars.push(c);
    }
    chars
}

/// Order of code points, the first difference deciding; a prefix comes first.
pub open spec fn precedes(a: Seq<char>, b: Seq<char>) -> bool
    decreases a.len(),
{
    if b.len() == 0 {
        false
    } else if a.len() == 0 {
        true
    } else if a[0] != b[0] {
        a[0] < b[0]
    } else {
        precedes(a.drop_first(), b.drop_first())
    }
}

/// Whether `a` comes before `b` in the order of code points.
pub fn is_before(a: &str, b: &str) -> (r: bool)
    ensures
        r == precedes(a@, b@),
{
    let mut x = a.chars();
    let mut y = b.chars();
    loop
        invariant
            precedes(a@, b@) == precedes(
                vstd::std_specs::iter::IteratorSpec::remaining(&x),
                vstd::std_specs::iter::IteratorSpec::remaining(&y),
            ),
            vstd::std_specs::iter::IteratorSpec::decrease(&x) is Some,
        decreases vstd::std_specs::iter::IteratorSpec::decrease(&x)->0,
    {
        match (x.next(), y.next()) {
            (_, None) => {
                return false;
            },
            (None, Some(_)) => {
                return true;
            },
            (Some(c), Some(d)) => {
                if c != d {
                    return c < d;
                }
            },
        }
    }
}

/// No text comes before itself, and two texts never come before each other.
pub proof fn precedes_is_asymmetric(a: Seq<char>, b: Seq<char>)
    ensures
        precedes(a, b) ==> !precedes(b, a) && a != b,
    decreases a.len(),
{
    if a.len() > 0 && b.len() > 0 && a[0] == b[0] {
        precedes_is_asymmetric(a.drop_first(), b.drop_first());
    }
}

/// Of two different texts one comes before the other.
pub proof fn precedes_is_total(a: Seq<char>, b: Seq<char>)
    ensures
        a == b || precedes(a, b) || precedes(b, a),
    decreases a.len(),
{
    if a.len() > 0 && b.len() > 0 && a[0] == b[0] {
        precedes_is_total(a.drop_first(), b.drop_first());
        if a.drop_first() == b.drop_first() {
            assert(a =~= seq![a[0]] + a.drop_first());
            assert(b =~= seq![b[0]] + b.drop_first());
        }
    } else if a.len() == 0 && b.len() == 0 {
        assert(a =~= b);
    }
}

/// The order of texts is transitive.
pub proof fn precedes_is_transitive(a: Seq<char>, b: Seq<char>, c: Seq<char>)
    requires
        precedes(a, b),
        precedes(b, c),
    ensures
        precedes(a, c),
    decreases a.len(),
{
    if a.len() > 0 && b.len() > 0 && c.len() > 0 && a[0] == b[0] && b[0] == c[0] {
        precedes_is_transitive(a.drop_first(), b.drop_first(), c.drop_first());
    }
}

/// Whether `text` begins with `prefix`.
pub fn begins_with(text: &str, prefix: &str) -> (r: bool)
    ensures
        r == prefix@.is_prefix_of(text@),
{
    let t = chars_of(text);
    let p = chars_of(prefix);
    if p.len() > t.len() {
        return false;
    }
    let mut i: usize = 0;
    while i < p.len()
        invariant
            i <= p@.len() <= t@.len(),
            p@ == prefix@,
            t@ == text@,
            forall|j: int| 0 <= j < i ==> p@[j] == t@[j],
        decreases p@.len() - i,
    {
        if p[i] != t[i] {
            assert(prefix@ != text@.take(prefix@.len() as int)) by {
                assert(text@.take(prefix@.len() as int)[i as int] == t@[i as int]);
            }
            return false;
        }
        i = i + 1;
    }
    assert(prefix@ =~= text@.take(prefix@.len() as int));
    true
}

/// What follows a prefix, where a text has it.
pub fn without_prefix(text: &str, prefix: &str) -> (rest: Option<String>)
    ensures
        match rest {
            Some(r) => prefix@.is_prefix_of(text@) && r@ == text@.skip(prefix@.len() as int),
            None => !prefix@.is_prefix_of(text@),
        },
{
    if begins_with(text, prefix) {
        let n: usize = prefix.unicode_len();
        let all: usize = text.unicode_len();
        let rest = text.substring_char(n, all).to_owned();
        assert(rest@ =~= text@.skip(prefix@.len() as int));
        Some(rest)
    } else {
        None
    }
}

/// `head` followed by `tail`.
pub fn joined(head: &str, tail: &str) -> (whole: String)
    ensures
        whole@ == head@ + tail@,
{
    let mut whole = head.to_owned();
    whole.append(tail);
    whole
}

/// The number of characters before the first `c`, or of all where there is none.
pub open spec fn first_of(text: Seq<char>, c: char) -> nat
    decreases text.len(),
{
    if text.len() == 0 || text[0] == c {
        0
    } else {
        1 + first_of(text.drop_first(), c)
    }
}

/// The pieces of a text between the occurrences of a separator; there is always one.
pub open spec fn pieces(text: Seq<char>, separator: char) -> Seq<Seq<char>>
    decreases text.len(),
{
    let n = first_of(text, separator) as int;
    if n >= text.len() {
        seq![text]
    } else {
        seq![text.take(n)] + pieces(text.skip(n + 1), separator)
    }
}

/// The position that ends a run without `c` is the first of `c`.
pub proof fn first_of_is(text: Seq<char>, c: char, at: int)
    requires
        0 <= at <= text.len(),
        forall|i: int| 0 <= i < at ==> #[trigger] text[i] != c,
        at < text.len() ==> text[at] == c,
    ensures
        first_of(text, c) == at,
    decreases text.len(),
{
    if at > 0 {
        assert(text[0] != c);
        assert forall|i: int| 0 <= i < at - 1 implies #[trigger] text.drop_first()[i] != c by {
            assert(text.drop_first()[i] == text[i + 1]);
        }
        first_of_is(text.drop_first(), c, at - 1);
    }
}

/// The number of characters before the first `c`, or of all where there is none.
pub fn find_char(chars: &Vec<char>, c: char) -> (at: usize)
    ensures
        at == first_of(chars@, c),
        at <= chars@.len(),
{
    let mut at: usize = 0;
    while at < chars.len() && chars[at] != c
        invariant
            at <= chars@.len(),
            forall|i: int| 0 <= i < at ==> #[trigger] chars@[i] != c,
        decreases chars@.len() - at,
    {
        at = at + 1;
    }
    proof {
        first_of_is(chars@, c, at as int);
    }
    at
}

/// The pieces of a text between the occurrences of a separator.
pub fn split(text: &str, separator: char) -> (parts: Vec<String>)
    ensures
        parts.deep_view() == pieces(text@, separator),
{
    let chars = chars_of(text);
    let mut parts: Vec<String> = Vec::new();
    let mut start: usize = 0;
    let mut i: usize = 0;
    assert(text@.skip(0) =~= text@);
    assert(parts.deep_view() + pieces(text@, separator) =~= pieces(text@, separator));
    while i < chars.len()
        invariant
            start <= i <= chars@.len(),
            chars@ == text@,
            forall|j: int| start <= j < i ==> #[trigger] text@[j] != separator,
            parts.deep_view() + pieces(text@.skip(start as int), separator) == pieces(
                text@,
                separator,
            ),
        decreases chars@.len() - i,
    {
        if chars[i] == separator {
            let ghost rest = text@.skip(start as int);
            let ghost before = parts.deep_view();
            proof {
                first_of_is(rest, separator, i - start);
                assert(rest.take(i - start) =~= text@.subrange(start as int, i as int));
                assert(rest.skip(i - start + 1) =~= text@.skip(i + 1));
            }
            let piece = text.substring_char(start, i).to_owned();
            parts.push(piece);
            assert(parts.deep_view() =~= before.push(piece@));
            start = i + 1;
            assert(parts.deep_view() + pieces(text@.skip(start as int), separator) =~= before
                + pieces(rest, separator));
        }
        i = i + 1;
    }
    let ghost rest = text@.skip(start as int);
    let ghost before = parts.deep_view();
    proof {
        first_of_is(rest, separator, rest.len() as int);
        assert(rest =~= text@.subrange(start as int, i as int));
    }
    let piece = text.substring_char(start, i).to_owned();
    parts.push(piece);
    assert(parts.deep_view() =~= before + pieces(rest, separator));
    parts
}

/// A line without the carriage return that belongs to its end.
pub open spec fn line_body(line: Seq<char>) -> Seq<char> {
    if line.len() > 0 && line.last() == '\r' {
        line.drop_last()
    } else {
        line
    }
}

/// The lines of a text; what follows the last line end is a line where it is not empty.
pub open spec fn lines(text: Seq<char>) -> Seq<Seq<char>> {
    let parts = pieces(text, '\n');
    let ended = Seq::new((parts.len() - 1) as nat, |i: int| line_body(parts[i]));
    if parts.last().len() == 0 {
        ended
    } else {
        ended.push(parts.last())
    }
}

/// There is always a piece.
proof fn pieces_exist(text: Seq<char>, separator: char)
    ensures
        pieces(text, separator).len() >= 1,
    decreases text.len(),
{
}

/// The first line that begins with `prefix`.
pub open spec fn field_line(all: Seq<Seq<char>>, prefix: Seq<char>) -> Option<Seq<char>>
    decreases all.len(),
{
    if all.len() == 0 {
        None
    } else if prefix.is_prefix_of(all[0]) {
        Some(all[0].skip(prefix.len() as int))
    } else {
        field_line(all.drop_first(), prefix)
    }
}

/// What follows `prefix` on the first line that begins with it.
pub fn field(text: &str, prefix: &str) -> (value: Option<String>)
    ensures
        match value {
            Some(v) => field_line(lines(text@), prefix@) == Some(v@),
            None => field_line(lines(text@), prefix@) is None,
        },
{
    let parts = split(text, '\n');
    let ghost all = lines(text@);
    proof {
        pieces_exist(text@, '\n');
    }
    let count: usize = parts.len();
    let ghost seqs = parts.deep_view();
    assert(seqs.len() == count);
    let width: usize = prefix.unicode_len();
    let mut i: usize = 0;
    assert(all.skip(0) =~= all);
    while i < count
        invariant
            i <= count,
            count == parts@.len(),
            count >= 1,
            seqs == parts.deep_view(),
            seqs == pieces(text@, '\n'),
            all == lines(text@),
            width == prefix@.len(),
            i <= all.len() || (i == count && all.len() == count - 1),
            field_line(all, prefix@) == field_line(
                all.skip(if i <= all.len() { i as int } else { all.len() as int }),
                prefix@,
            ),
        decreases count - i,
    {
        assert(seqs[i as int] == parts@[i as int]@);
        let part = parts[i].as_str();
        let size: usize = part.unicode_len();
        let last = i + 1 == count;
        if !(last && size == 0) {
            let body = if !last && size > 0 && part.get_char(size - 1) == '\r' {
                part.substring_char(0, size - 1)
            } else {
                part
            };
            assert(body@ =~= all[i as int]);
            assert(all.skip(i as int)[0] == all[i as int]);
            assert(all.skip(i as int).drop_first() =~= all.skip(i + 1));
            if begins_with(body, prefix) {
                let end: usize = body.unicode_len();
                let found = body.substring_char(width, end).to_owned();
                assert(found@ =~= body@.skip(width as int));
                return Some(found);
            }
        }
        i = i + 1;
    }
    assert(all.skip(all.len() as int) =~= Seq::<Seq<char>>::empty());
    None
}

/// The value of a hexadecimal digit of either case.
pub open spec fn hex_value(c: char) -> Option<int> {
    if '0' <= c <= '9' {
        Some(c as int - '0' as int)
    } else if 'a' <= c <= 'f' {
        Some(c as int - 'a' as int + 10)
    } else if 'A' <= c <= 'F' {
        Some(c as int - 'A' as int + 10)
    } else {
        None
    }
}

/// The number that hexadecimal digits write, where all characters are such digits.
pub open spec fn hex_number(digits: Seq<char>) -> Option<int>
    decreases digits.len(),
{
    if digits.len() == 0 {
        Some(0)
    } else {
        match (hex_number(digits.drop_last()), hex_value(digits.last())) {
            (Some(n), Some(d)) => Some(16 * n + d),
            _ => None,
        }
    }
}

/// A sixteen-bit number in hexadecimal, with an optional plus sign.
pub open spec fn hex16_value(text: Seq<char>) -> Option<int> {
    let digits = if text.len() > 0 && text[0] == '+' {
        text.drop_first()
    } else {
        text
    };
    match hex_number(digits) {
        Some(n) => if digits.len() > 0 && n <= 0xffff {
            Some(n)
        } else {
            None
        },
        None => None,
    }
}

/// A prefix of digits writes no more than the whole.
proof fn hex_number_grows(digits: Seq<char>, n: int)
    requires
        0 <= n <= digits.len(),
        hex_number(digits) is Some,
    ensures
        hex_number(digits.take(n)) is Some,
        0 <= hex_number(digits.take(n))->0 <= hex_number(digits)->0,
    decreases digits.len(),
{
    if n == digits.len() {
        assert(digits.take(n) =~= digits);
        if n > 0 {
            hex_number_grows(digits.drop_last(), n - 1);
            assert(digits.drop_last().take(n - 1) =~= digits.drop_last());
        }
    } else {
        hex_number_grows(digits.drop_last(), n);
        assert(digits.drop_last().take(n) =~= digits.take(n));
    }
}

/// Reads a sixteen-bit number in hexadecimal.
pub fn parse_hex16(text: &str) -> (value: Option<u16>)
    ensures
        match value {
            Some(n) => hex16_value(text@) == Some(n as int),
            None => hex16_value(text@) is None,
        },
{
    let chars = chars_of(text);
    let start: usize = if chars.len() > 0 && chars[0] == '+' { 1 } else { 0 };
    let ghost digits = text@.skip(start as int);
    proof {
        if start == 1 {
            assert(digits =~= text@.drop_first());
        } else {
            assert(digits =~= text@);
        }
    }
    if start == chars.len() {
        return None;
    }
    let mut n: u32 = 0;
    let mut i: usize = start;
    assert(digits.take(0) =~= Seq::<char>::empty());
    while i < chars.len()
        invariant
            start <= i <= chars@.len(),
            chars@ == text@,
            digits == text@.skip(start as int),
            digits.len() > 0,
            hex16_value(text@) == (match hex_number(digits) {
                Some(v) => if v <= 0xffff {
                    Some(v)
                } else {
                    None
                },
                None => None,
            }),
            n <= 0xffff,
            hex_number(digits.take(i - start)) == Some(n as int),
        decreases chars@.len() - i,
    {
        let c: char = chars[i];
        assert(digits.take(i - start + 1).drop_last() =~= digits.take(i - start));
        assert(digits.take(i - start + 1).last() == c);
        let d: u32 = if '0' <= c && c <= '9' {
            c as u32 - '0' as u32
        } else if 'a' <= c && c <= 'f' {
            c as u32 - 'a' as u32 + 10
        } else if 'A' <= c && c <= 'F' {
            c as u32 - 'A' as u32 + 10
        } else {
            proof {
                if hex_number(digits) is Some {
                    hex_number_grows(digits, i - start + 1);
                }
            }
            return None;
        };
        n = 16 * n + d;
        i = i + 1;
        if n > 0xffff {
            proof {
                if hex_number(digits) is Some {
                    hex_number_grows(digits, i - start);
                }
            }
            return None;
        }
    }
    assert(digits.take(i - start) =~= digits);
    Some(n as u16)
}

/// The characters with the Unicode property of white space.
pub open spec fn is_white(c: char) -> bool {
    ||| '\u{9}' <= c <= '\u{d}'
    ||| c == ' '
    ||| c == '\u{85}'
    ||| c == '\u{a0}'
    ||| c == '\u{1680}'
    ||| '\u{2000}' <= c <= '\u{200a}'
    ||| c == '\u{2028}'
    ||| c == '\u{2029}'
    ||| c == '\u{202f}'
    ||| c == '\u{205f}'
    ||| c == '\u{3000}'
}

/// A text without the zero characters at its end.
pub open spec fn without_nuls(text: Seq<char>) -> Seq<char>
    decreases text.len(),
{
    if text.len() > 0 && text.last() == '\0' {
        without_nuls(text.drop_last())
    } else {
        text
    }
}

/// A text without the white space at its end.
pub open spec fn without_white_end(text: Seq<char>) -> Seq<char>
    decreases text.len(),
{
    if text.len() > 0 && is_white(text.last()) {
        without_white_end(text.drop_last())
    } else {
        text
    }
}

/// A text without the white space at its start.
pub open spec fn without_white_start(text: Seq<char>) -> Seq<char>
    decreases text.len(),
{
    if text.len() > 0 && is_white(text[0]) {
        without_white_start(text.drop_first())
    } else {
        text
    }
}

/// Whether a character is white space.
fn white(c: char) -> (r: bool)
    ensures
        r == is_white(c),
{
    ('\u{9}' <= c && c <= '\u{d}') || c == ' ' || c == '\u{85}' || c == '\u{a0}' || c == '\u{1680}'
        || ('\u{2000}' <= c && c <= '\u{200a}') || c == '\u{2028}' || c == '\u{2029}' || c
        == '\u{202f}' || c == '\u{205f}' || c == '\u{3000}'
}

/// A padded text as it is meant: without zero characters at its end, then without white space
/// around it.
pub fn unpadded(text: &str) -> (body: String)
    ensures
        body@ == without_white_start(without_white_end(without_nuls(text@))),
{
    let chars = chars_of(text);
    let mut end: usize = chars.len();
    assert(chars@.take(end as int) =~= chars@);
    while end > 0 && chars[end - 1] == '\0'
        invariant
            end <= chars@.len(),
            without_nuls(chars@.take(end as int)) == without_nuls(chars@),
        decreases end,
    {
        assert(chars@.take(end as int).drop_last() =~= chars@.take(end - 1));
        end = end - 1;
    }
    let ghost kept = without_nuls(chars@);
    assert(kept == chars@.take(end as int));
    while end > 0 && white(chars[end - 1])
        invariant
            end <= chars@.len(),
            without_white_end(chars@.take(end as int)) == without_white_end(kept),
        decreases end,
    {
        assert(chars@.take(end as int).drop_last() =~= chars@.take(end - 1));
        end = end - 1;
    }
    let ghost shorter = without_white_end(kept);
    assert(shorter == chars@.take(end as int));
    let mut start: usize = 0;
    assert(chars@.subrange(0, end as int) =~= shorter);
    while start < end && white(chars[start])
        invariant
            start <= end <= chars@.len(),
            without_white_start(chars@.subrange(start as int, end as int)) == without_white_start(
                shorter,
            ),
        decreases end - start,
    {
        assert(chars@.subrange(start as int, end as int).drop_first() =~= chars@.subrange(
            start + 1,
            end as int,
        ));
        start = start + 1;
    }
    text.substring_char(start, end).to_owned()
}

/// `n` in hexadecimal, without leading zeros.
pub open spec fn hex(n: nat) -> Seq<char>
    decreases n,
{
    if n < 16 {
        seq![hex_char(n as int)]
    } else {
        hex(n / 16).push(hex_char((n % 16) as int))
    }
}

/// Appends a byte in hexadecimal, without leading zeros.
pub fn push_hex(out: &mut String, n: u8)
    ensures
        final(out)@ == old(out)@ + hex(n as nat),
{
    let ghost before = out@;
    if n >= 16 {
        push_hex_digit(out, (n / 16) as u16);
    }
    push_hex_digit(out, (n % 16) as u16);
    proof {
        reveal_with_fuel(hex, 2);
    }
    assert(out@ =~= before + hex(n as nat));
}

/// A decimal digit.
pub open spec fn is_digit(c: char) -> bool {
    '0' <= c <= '9'
}

/// A text of decimal digits.
pub open spec fn all_digits(text: Seq<char>) -> bool {
    forall|i: int| 0 <= i < text.len() ==> is_digit(#[trigger] text[i])
}

/// The number that decimal digits denote.
pub open spec fn number(digits: Seq<char>) -> nat
    decreases digits.len(),
{
    if digits.len() == 0 {
        0
    } else {
        (number(digits.drop_last()) * 10 + (digits.last() as int - '0' as int)) as nat
    }
}

/// More digits denote no smaller number.
proof fn number_grows(digits: Seq<char>, n: int)
    requires
        all_digits(digits),
        0 <= n <= digits.len(),
    ensures
        number(digits.take(n)) <= number(digits),
    decreases digits.len() - n,
{
    if n < digits.len() {
        number_grows(digits, n + 1);
        assert(digits.take(n + 1).drop_last() =~= digits.take(n));
        assert(is_digit(digits[n]));
    } else {
        assert(digits.take(n) =~= digits);
    }
}

/// Whether all characters from `from` up to `to` are decimal digits.
pub fn are_digits(chars: &Vec<char>, from: usize, to: usize) -> (r: bool)
    requires
        from <= to <= chars@.len(),
    ensures
        r == all_digits(chars@.subrange(from as int, to as int)),
{
    let ghost part = chars@.subrange(from as int, to as int);
    let mut i: usize = from;
    while i < to
        invariant
            from <= i <= to <= chars@.len(),
            part == chars@.subrange(from as int, to as int),
            forall|k: int| 0 <= k < i - from ==> is_digit(#[trigger] part[k]),
        decreases to - i,
    {
        if chars[i] < '0' || chars[i] > '9' {
            assert(!is_digit(part[i - from]));
            return false;
        }
        i = i + 1;
    }
    true
}

/// The number that decimal digits denote, where it is within a limit.
pub fn parse_digits(chars: &Vec<char>, from: usize, to: usize, limit: u64) -> (value: Option<u64>)
    requires
        from <= to <= chars@.len(),
        all_digits(chars@.subrange(from as int, to as int)),
    ensures
        match value {
            Some(n) => n == number(chars@.subrange(from as int, to as int)) && n <= limit,
            None => number(chars@.subrange(from as int, to as int)) > limit,
        },
{
    let ghost part = chars@.subrange(from as int, to as int);
    let mut n: u64 = 0;
    let mut i: usize = from;
    assert(part.take(0) =~= Seq::<char>::empty());
    while i < to
        invariant
            from <= i <= to <= chars@.len(),
            part == chars@.subrange(from as int, to as int),
            all_digits(part),
            n <= limit,
            n == number(part.take(i - from)),
        decreases to - i,
    {
        assert(is_digit(part[i - from]));
        assert(part.take(i - from + 1).drop_last() =~= part.take(i - from));
        let digit: u64 = chars[i] as u64 - '0' as u64;
        let next: u128 = n as u128 * 10 + digit as u128;
        if next > limit as u128 {
            proof {
                number_grows(part, i - from + 1);
            }
            return None;
        }
        n = next as u64;
        i = i + 1;
    }
    assert(part.take(i - from) =~= part);
    Some(n)
}

/// The digits of a whole number behind its sign.
pub open spec fn unsigned_part(text: Seq<char>) -> Seq<char> {
    if text.len() > 0 && (text[0] == '-' || text[0] == '+') {
        text.skip(1)
    } else {
        text
    }
}

/// The whole number that a text denotes, where it fits in 64 bits.
pub open spec fn whole_value(text: Seq<char>) -> Option<int> {
    let digits = unsigned_part(text);
    let value = if text.len() > 0 && text[0] == '-' {
        -number(digits)
    } else {
        number(digits) as int
    };
    if digits.len() == 0 || !all_digits(digits) || value < i64::MIN || value > i64::MAX {
        None
    } else {
        Some(value)
    }
}

/// Reads a whole number.
pub fn parse_i64(text: &str) -> (value: Option<i64>)
    ensures
        match value {
            Some(n) => whole_value(text@) == Some(n as int),
            None => whole_value(text@) is None,
        },
{
    let chars = chars_of(text);
    if chars.len() == 0 {
        return None;
    }
    let negative = chars[0] == '-';
    let from: usize = if chars[0] == '-' || chars[0] == '+' {
        1
    } else {
        0
    };
    assert(chars@.subrange(from as int, chars@.len() as int) =~= unsigned_part(text@));
    if from == chars.len() || !are_digits(&chars, from, chars.len()) {
        return None;
    }
    if negative {
        match parse_digits(&chars, from, chars.len(), 0x8000_0000_0000_0000) {
            Some(n) => Some((-(n as i128)) as i64),
            None => None,
        }
    } else {
        match parse_digits(&chars, from, chars.len(), 0x7fff_ffff_ffff_ffff) {
            Some(n) => Some(n as i64),
            None => None,
        }
    }
}

/// A number in decimal consists of digits, and they denote the number.
pub proof fn decimal_reads_back(n: nat)
    ensures
        all_digits(decimal(n)),
        decimal(n).len() > 0,
        number(decimal(n)) == n,
    decreases n,
{
    if n < 10 {
        assert(decimal(n).drop_last() =~= Seq::<char>::empty());
        assert(number(decimal(n).drop_last()) == 0);
        assert(decimal(n).last() == digit_char(n as int));
    } else {
        decimal_reads_back(n / 10);
        assert(decimal(n).drop_last() =~= decimal(n / 10));
        assert(decimal(n).last() == digit_char((n % 10) as int));
    }
}

/// Zeros in front of digits do not change what they denote.
proof fn leading_zeros_say_nothing(count: nat, digits: Seq<char>)
    requires
        all_digits(digits),
    ensures
        all_digits(zeros(count) + digits),
        number(zeros(count) + digits) == number(digits),
    decreases digits.len(), count,
{
    let all = zeros(count) + digits;
    assert forall|i: int| 0 <= i < all.len() implies is_digit(#[trigger] all[i]) by {
        if i >= count {
            assert(is_digit(digits[i - count]));
        }
    }
    if digits.len() > 0 {
        leading_zeros_say_nothing(count, digits.drop_last());
        assert(all.drop_last() =~= zeros(count) + digits.drop_last());
        assert(all.last() == digits.last());
    } else if count > 0 {
        leading_zeros_say_nothing((count - 1) as nat, digits);
        assert(all.drop_last() =~= zeros((count - 1) as nat) + digits);
        assert(all.last() == '0');
    } else {
        assert(all =~= digits);
    }
}

/// A number that is widened with zeros consists of digits, and they denote the number.
pub proof fn padded_reads_back(n: nat, width: nat)
    ensures
        all_digits(padded(n as int, width)),
        number(padded(n as int, width)) == n,
        padded(n as int, width).len() == if decimal(n).len() < width {
            width
        } else {
            decimal(n).len()
        },
{
    let used = decimal(n).len();
    let fill = if used < width {
        (width - used) as nat
    } else {
        0nat
    };
    decimal_reads_back(n);
    leading_zeros_say_nothing(fill, decimal(n));
    assert(padded(n as int, width) =~= zeros(fill) + decimal(n));
}

/// What is written of a whole number is read back as that number.
pub proof fn written_numbers_read_back(n: i64)
    ensures
        whole_value(signed(n as int)) == Some(n as int),
{
    decimal_reads_back(magnitude(n as int));
    if n < 0 {
        assert(signed(n as int).skip(1) =~= decimal(magnitude(n as int)));
    } else {
        assert(signed(n as int) =~= decimal(magnitude(n as int)));
        assert(is_digit(decimal(magnitude(n as int))[0]));
    }
}

/// Texts in a row, with a separator between them.
pub open spec fn join(list: Seq<Seq<char>>, separator: Seq<char>) -> Seq<char>
    decreases list.len(),
{
    if list.len() == 0 {
        Seq::empty()
    } else if list.len() == 1 {
        list[0]
    } else {
        join(list.drop_last(), separator) + separator + list.last()
    }
}

/// Joins texts in a row, with a separator between them.
pub fn join_all(list: &Vec<String>, separator: &str) -> (whole: String)
    ensures
        whole@ == join(list.deep_view(), separator@),
{
    let ghost all = list.deep_view();
    let mut whole = String::new();
    let mut i: usize = 0;
    assert(whole@ =~= join(all.take(0), separator@));
    while i < list.len()
        invariant
            i <= list@.len(),
            all == list.deep_view(),
            whole@ == join(all.take(i as int), separator@),
        decreases list@.len() - i,
    {
        if i > 0 {
            whole.append(separator);
        }
        whole.append(list[i].as_str());
        i = i + 1;
        assert(all.take(i as int).drop_last() =~= all.take(i - 1));
        assert(all.take(i as int).last() == list@[i - 1]@);
        assert(whole@ =~= join(all.take(i as int), separator@));
    }
    assert(all.take(i as int) =~= all);
    whole
}

/// Appends a text to a list.
pub fn push_text(list: &mut Vec<String>, words: String)
    ensures
        final(list).deep_view() == old(list).deep_view().push(words@),
{
    let ghost before = list.deep_view();
    list.push(words);
    assert(list.deep_view() =~= before.push(words@));
}

/// A number is written digit by digit: the last digit is what it leaves over ten, and the digits
/// before it write the tenth of it, without leading zeros.
pub proof fn numbers_are_written_in_decimal(n: nat)
    ensures
        decimal(n).len() > 0,
        decimal(n).last() as int == 48 + n % 10,
        n < 10 ==> decimal(n).len() == 1,
        n >= 10 ==> decimal(n).drop_last() == decimal(n / 10),
        n > 0 ==> decimal(n)[0] != '0',
    decreases n,
{
    if n >= 10 {
        numbers_are_written_in_decimal(n / 10);
        assert(decimal(n).drop_last() =~= decimal(n / 10));
        assert(decimal(n)[0] == decimal(n / 10)[0]);
    }
}

/// Digits denote ten times what they denote without the last one, and that digit.
pub proof fn digits_denote_their_number(digits: Seq<char>, last: char)
    requires
        '0' <= last <= '9',
    ensures
        number(Seq::empty()) == 0,
        number(digits.push(last)) == 10 * number(digits) + (last as int - 48),
{
    assert(digits.push(last).drop_last() =~= digits);
}

/// Different numbers are written differently.
pub proof fn decimals_differ(a: nat, b: nat)
    ensures
        decimal(a) == decimal(b) <==> a == b,
{
    decimal_reads_back(a);
    decimal_reads_back(b);
}

/// A negative number is written as its opposite behind a hyphen.
pub proof fn signs_stand_in_front(n: nat)
    ensures
        signed(n as int) == decimal(n),
        n > 0 ==> signed(-n) == seq!['-'] + decimal(n),
{
    assert(signed(n as int) =~= decimal(n));
}

/// Different numbers are written differently, with their signs too.
pub proof fn signed_numbers_differ(a: int, b: int)
    ensures
        signed(a) == signed(b) <==> a == b,
{
    let x = decimal(magnitude(a));
    let y = decimal(magnitude(b));
    decimal_reads_back(magnitude(a));
    decimal_reads_back(magnitude(b));
    if signed(a) == signed(b) {
        assert(is_digit(x[0]) && is_digit(y[0]));
        if a < 0 {
            assert(signed(a)[0] == '-');
            if b >= 0 {
                assert(signed(b)[0] == y[0]);
            }
            assert(signed(a).skip(1) =~= x);
            assert(signed(b).skip(1) =~= y);
        } else {
            assert(signed(a) =~= x);
            if b < 0 {
                assert(signed(b)[0] == '-');
            }
            assert(signed(b) =~= y);
        }
    }
}

/// A number that is widened has zeros in front of its digits, as many as are missing.
pub proof fn widened_numbers_have_zeros_in_front(n: nat, width: nat)
    ensures
        ({
            let wide = padded(n as int, width);
            let fill = wide.len() - decimal(n).len();
            &&& wide.len() == if decimal(n).len() < width {
                width
            } else {
                decimal(n).len()
            }
            &&& wide.skip(fill) == decimal(n)
            &&& forall|i: int| 0 <= i < fill ==> #[trigger] wide[i] == '0'
        }),
{
    let wide = padded(n as int, width);
    padded_reads_back(n, width);
    assert(wide.skip(wide.len() - decimal(n).len()) =~= decimal(n));
}

/// A number below a hundred in two digits.
pub proof fn two_digits(n: nat)
    requires
        n < 100,
    ensures
        padded(n as int, 2).len() == 2,
        padded(n as int, 2)[0] as int == 48 + n / 10,
        padded(n as int, 2)[1] as int == 48 + n % 10,
{
    reveal_with_fuel(decimal, 2);
}

/// A number below a thousand in three digits.
proof fn three_digits(n: nat)
    requires
        n < 1000,
    ensures
        padded(n as int, 3).len() == 3,
        padded(n as int, 3)[0] as int == 48 + n / 100,
        padded(n as int, 3)[1] as int == 48 + n / 10 % 10,
        padded(n as int, 3)[2] as int == 48 + n % 10,
{
    reveal_with_fuel(decimal, 3);
    assert(n / 10 / 10 == n / 100);
}

/// The digits of a number below a thousand are those that it has in any larger number.
proof fn low_digits(n: nat)
    ensures
        n % 1000 / 100 == n / 100 % 10,
        n % 1000 / 10 % 10 == n / 10 % 10,
        n % 1000 % 10 == n % 10,
{
    let q = (n / 1000) as int;
    let r = (n % 1000) as int;
    let a = r / 100;
    let s = r % 100;
    let b = s / 10;
    let c = s % 10;
    let k = n as int;
    assert(k == 1000 * q + 100 * a + 10 * b + c && 0 <= a < 10 && 0 <= b < 10 && 0 <= c < 10);
    assert(k / 100 == 10 * q + a) by (nonlinear_arith)
        requires
            k == 1000 * q + 100 * a + 10 * b + c,
            0 <= b < 10,
            0 <= c < 10,
    ;
    assert(k / 10 == 100 * q + 10 * a + b) by (nonlinear_arith)
        requires
            k == 1000 * q + 100 * a + 10 * b + c,
            0 <= c < 10,
    ;
    assert(k % 10 == c) by (nonlinear_arith)
        requires
            k == 1000 * q + 100 * a + 10 * b + c,
            0 <= c < 10,
    ;
    assert(r / 10 == 10 * a + b) by (nonlinear_arith)
        requires
            r == 100 * a + 10 * b + c,
            0 <= c < 10,
    ;
    assert((10 * q + a) % 10 == a) by (nonlinear_arith)
        requires
            0 <= a < 10,
    ;
    assert((100 * q + 10 * a + b) % 10 == b) by (nonlinear_arith)
        requires
            0 <= b < 10,
    ;
    assert((10 * a + b) % 10 == b) by (nonlinear_arith)
        requires
            0 <= b < 10,
    ;
    assert(r % 10 == c) by (nonlinear_arith)
        requires
            r == 100 * a + 10 * b + c,
            0 <= c < 10,
    ;
}

/// A number of thousandths is written with its whole part, a point and three digits; a negative one
/// as its opposite behind a hyphen.
pub proof fn thousandths_have_three_decimals(n: nat)
    ensures
        ({
            let words = thousandths(n as int);
            let point = words.len() - 4;
            &&& point >= 1
            &&& words.take(point) == decimal(n / 1000)
            &&& words[point] == '.'
            &&& words[point + 1] as int == 48 + n / 100 % 10
            &&& words[point + 2] as int == 48 + n / 10 % 10
            &&& words[point + 3] as int == 48 + n % 10
            &&& n > 0 ==> thousandths(-n) == seq!['-'] + words
        }),
{
    let words = thousandths(n as int);
    let whole = decimal(n / 1000);
    let rest = n % 1000;
    let tail = padded(rest as int, 3);
    let point = whole.len() as int;
    three_digits(rest);
    decimal_reads_back(n / 1000);
    low_digits(n);
    assert(words =~= whole + seq!['.'] + tail);
    assert(words.take(point) =~= whole);
    assert(words[point + 1] == tail[0] && words[point + 2] == tail[1] && words[point + 3]
        == tail[2]);
    if n > 0 {
        assert(thousandths(-n) =~= seq!['-'] + whole + seq!['.'] + tail);
        assert(thousandths(-n) =~= seq!['-'] + words);
    }
}

/// The hexadecimal digits are those of the decimal system and the first six letters, which are read in
/// either case; no other character is one.
pub proof fn hexadecimal_digits_have_their_values(d: int, c: char)
    requires
        0 <= d < 16,
    ensures
        hex_char(d) == "0123456789abcdef"@[d],
        hex_value("0123456789abcdef"@[d]) == Some(d),
        hex_value("0123456789ABCDEF"@[d]) == Some(d),
        hex_value(c) is Some <==> '0' <= c <= '9' || 'a' <= c <= 'f' || 'A' <= c <= 'F',
{
    reveal_strlit("0123456789abcdef");
    reveal_strlit("0123456789ABCDEF");
}

/// A number in hexadecimal is read from its digits: each adds its value to sixteen times what stands
/// before it, and what is no digit spoils the number.
pub proof fn hexadecimal_digits_denote_their_number(digits: Seq<char>, last: char)
    ensures
        hex_number(Seq::empty()) == Some(0int),
        match (hex_number(digits), hex_value(last)) {
            (Some(n), Some(d)) => hex_number(digits.push(last)) == Some(16 * n + d),
            _ => hex_number(digits.push(last)) is None,
        },
{
    assert(digits.push(last).drop_last() =~= digits);
}

/// A sixteen-bit number that is written in hexadecimal is read back as it was, with a plus sign too.
pub proof fn hexadecimal_numbers_read_back(n: u16)
    ensures
        hex4(n).len() == 4,
        hex16_value(hex4(n)) == Some(n as int),
        hex16_value(seq!['+'] + hex4(n)) == Some(n as int),
{
    let a = n as int / 4096;
    let b = n as int / 256 % 16;
    let c = n as int / 16 % 16;
    let d = n as int % 16;
    hexadecimal_digits_have_their_values(a, '0');
    hexadecimal_digits_have_their_values(b, '0');
    hexadecimal_digits_have_their_values(c, '0');
    hexadecimal_digits_have_their_values(d, '0');
    let none = Seq::<char>::empty();
    let one = none.push(hex_char(a));
    let two = one.push(hex_char(b));
    let three = two.push(hex_char(c));
    hexadecimal_digits_denote_their_number(none, hex_char(a));
    hexadecimal_digits_denote_their_number(one, hex_char(b));
    hexadecimal_digits_denote_their_number(two, hex_char(c));
    hexadecimal_digits_denote_their_number(three, hex_char(d));
    assert(hex4(n) =~= three.push(hex_char(d)));
    let signed = seq!['+'] + hex4(n);
    assert(signed.drop_first() =~= hex4(n));
    assert(signed[0] == '+');
    reveal_strlit("0123456789abcdef");
    assert(hex4(n)[0] != '+');
}

/// A byte in hexadecimal has one digit, or two from sixteen on, and is read back.
pub proof fn bytes_read_back(n: u8)
    ensures
        hex(n as nat).len() == if n < 16 {
            1nat
        } else {
            2
        },
        hex_number(hex(n as nat)) == Some(n as int),
{
    reveal_with_fuel(hex, 2);
    let high = n as int / 16;
    let low = n as int % 16;
    let none = Seq::<char>::empty();
    hexadecimal_digits_have_their_values(high, '0');
    hexadecimal_digits_have_their_values(low, '0');
    hexadecimal_digits_denote_their_number(none, hex_char(high));
    hexadecimal_digits_denote_their_number(none, hex_char(low));
    hexadecimal_digits_denote_their_number(none.push(hex_char(high)), hex_char(low));
    if n < 16 {
        assert(hex(n as nat) =~= none.push(hex_char(low)));
    } else {
        assert(hex(n as nat) =~= none.push(hex_char(high)).push(hex_char(low)));
    }
}

/// A whole number is a row of digits, with a sign in front of it or without; nothing else is one, nor
/// is a number that does not fit in 64 bits.
pub proof fn whole_numbers_are_digits_with_a_sign(digits: Seq<char>)
    ensures
        ({
            let plain = digits.len() > 0 && all_digits(digits);
            let n = number(digits) as int;
            &&& whole_value(seq!['-'] + digits) == if plain && n <= 0x8000_0000_0000_0000 {
                Some(-n)
            } else {
                None
            }
            &&& whole_value(seq!['+'] + digits) == if plain && n <= 0x7fff_ffff_ffff_ffff {
                Some(n)
            } else {
                None
            }
            &&& digits.len() == 0 ==> whole_value(digits) is None
            &&& digits.len() > 0 && digits[0] != '-' && digits[0] != '+' ==> whole_value(digits)
                == if plain && n <= 0x7fff_ffff_ffff_ffff {
                Some(n)
            } else {
                None
            }
        }),
{
    assert((seq!['-'] + digits).skip(1) =~= digits);
    assert((seq!['+'] + digits).skip(1) =~= digits);
}

/// The first difference of two texts decides their order, by the code points that differ; a text comes
/// before all that it begins.
pub proof fn the_first_difference_decides(
    head: Seq<char>,
    a: char,
    b: char,
    rest: Seq<char>,
    other: Seq<char>,
)
    ensures
        a != b ==> precedes(head.push(a) + rest, head.push(b) + other) == (a < b),
        precedes(head, head.push(a) + rest),
        !precedes(head.push(a) + rest, head),
        !precedes(head, head),
    decreases head.len(),
{
    let x = head.push(a) + rest;
    let y = head.push(b) + other;
    if head.len() > 0 {
        let tail = head.drop_first();
        the_first_difference_decides(tail, a, b, rest, other);
        assert(x.drop_first() =~= tail.push(a) + rest);
        assert(y.drop_first() =~= tail.push(b) + other);
        assert(x[0] == head[0] && y[0] == head[0]);
    } else {
        assert(x[0] == a && y[0] == b);
    }
}

/// Joining the pieces of a text with their separator gives the text, and no piece holds the
/// separator.
pub proof fn pieces_make_the_text(text: Seq<char>, separator: char)
    ensures
        join(pieces(text, separator), seq![separator]) == text,
        forall|i: int|
            0 <= i < pieces(text, separator).len() ==> !(#[trigger] pieces(text, separator)[i]).contains(
                separator,
            ),
    decreases text.len(),
{
    let n = first_of(text, separator) as int;
    first_is_found(text, separator);
    let all = pieces(text, separator);
    if n >= text.len() {
        assert(all == seq![text]);
        assert(!text.contains(separator));
    } else {
        let rest = pieces(text.skip(n + 1), separator);
        pieces_make_the_text(text.skip(n + 1), separator);
        pieces_exist(text.skip(n + 1), separator);
        assert(all == seq![text.take(n)] + rest);
        join_splits(seq![text.take(n)], rest, seq![separator]);
        assert(join(seq![text.take(n)], seq![separator]) == text.take(n));
        assert(text.take(n) + seq![separator] + text.skip(n + 1) =~= text);
        assert forall|i: int| 0 <= i < all.len() implies !(#[trigger] all[i]).contains(
            separator,
        ) by {
            if i > 0 {
                assert(all[i] == rest[i - 1]);
            }
        }
    }
}

/// Before the first occurrence there is none, and it is one.
proof fn first_is_found(text: Seq<char>, c: char)
    ensures
        first_of(text, c) <= text.len(),
        forall|i: int| 0 <= i < first_of(text, c) ==> #[trigger] text[i] != c,
        first_of(text, c) < text.len() ==> text[first_of(text, c) as int] == c,
    decreases text.len(),
{
    if text.len() > 0 && text[0] != c {
        first_is_found(text.drop_first(), c);
        assert forall|i: int| 0 <= i < first_of(text, c) implies #[trigger] text[i] != c by {
            if i > 0 {
                assert(text.drop_first()[i - 1] == text[i]);
            }
        }
    }
}

/// Texts in a row have the separator between any two neighbours, and nowhere else.
pub proof fn join_splits(a: Seq<Seq<char>>, b: Seq<Seq<char>>, separator: Seq<char>)
    requires
        a.len() > 0,
        b.len() > 0,
    ensures
        join(a + b, separator) == join(a, separator) + separator + join(b, separator),
    decreases b.len(),
{
    let all = a + b;
    assert(all.last() == b.last());
    if b.len() == 1 {
        assert(all.drop_last() =~= a);
        assert(join(all, separator) =~= join(a, separator) + separator + join(b, separator));
    } else {
        join_splits(a, b.drop_last(), separator);
        assert(all.drop_last() =~= a + b.drop_last());
        assert(join(all, separator) =~= join(a, separator) + separator + join(b, separator));
    }
}

/// No text in a row is none, and one is itself.
pub proof fn join_of_one(words: Seq<char>, separator: Seq<char>)
    ensures
        join(Seq::empty(), separator).len() == 0,
        join(seq![words], separator) == words,
{
}

/// A text is split where its first line ends: the line is what stands before, without a carriage
/// return at its end, and the other lines are those of the rest. What follows the last line end is a
/// line where it is not empty.
pub proof fn lines_end_with_line_feeds(line: Seq<char>, rest: Seq<char>)
    requires
        !line.contains('\n'),
    ensures
        lines(line.push('\n') + rest) == seq![
            if line.len() > 0 && line.last() == '\r' {
                line.drop_last()
            } else {
                line
            },
        ] + lines(rest),
        lines(line) == if line.len() == 0 {
            Seq::empty()
        } else {
            seq![line]
        },
{
    let text = line.push('\n') + rest;
    let n = line.len() as int;
    assert forall|i: int| 0 <= i < n implies #[trigger] text[i] != '\n' by {
        assert(line.contains(line[i]));
    }
    first_of_is(text, '\n', n);
    assert forall|i: int| 0 <= i < n implies #[trigger] line[i] != '\n' by {
        assert(line.contains(line[i]));
    }
    first_of_is(line, '\n', n);
    assert(text.take(n) =~= line);
    assert(text.skip(n + 1) =~= rest);
    let parts = pieces(text, '\n');
    let others = pieces(rest, '\n');
    pieces_exist(rest, '\n');
    assert(parts == seq![line] + others);
    assert(parts.last() == others.last());
    let first = seq![line_body(line)];
    assert forall|i: int| 0 <= i < others.len() implies #[trigger] others[i] == parts[i + 1] by {}
    assert(lines(text) =~= first + lines(rest));
    assert(pieces(line, '\n') == seq![line]);
    assert(lines(line) =~= if line.len() == 0 {
        Seq::empty()
    } else {
        seq![line]
    });
}

/// The field of a name is what follows the name on the first line that begins with it; there is none
/// where no line does.
pub proof fn fields_are_on_their_first_line(
    before: Seq<Seq<char>>,
    name: Seq<char>,
    value: Seq<char>,
    after: Seq<Seq<char>>,
)
    requires
        forall|i: int| 0 <= i < before.len() ==> !name.is_prefix_of(#[trigger] before[i]),
    ensures
        field_line(before, name) is None,
        field_line(before.push(name + value) + after, name) == Some(value),
    decreases before.len(),
{
    let all = before.push(name + value) + after;
    if before.len() > 0 {
        let rest = before.drop_first();
        assert forall|i: int| 0 <= i < rest.len() implies !name.is_prefix_of(
            #[trigger] rest[i],
        ) by {
            assert(rest[i] == before[i + 1]);
        }
        fields_are_on_their_first_line(rest, name, value, after);
        assert(all[0] == before[0]);
        assert(all.drop_first() =~= rest.push(name + value) + after);
    } else {
        assert(all[0] == name + value);
        assert((name + value).take(name.len() as int) =~= name);
        assert((name + value).skip(name.len() as int) =~= value);
    }
}

/// What pads a text is dropped, and nothing else: zero characters at its end, and white space behind
/// and in front of the rest.
pub proof fn padding_is_dropped(body: Seq<char>, front: Seq<char>, back: Seq<char>, nuls: nat)
    requires
        body.len() > 0 ==> !is_white(body[0]) && !is_white(body.last()) && body.last() != '\0',
        forall|i: int| 0 <= i < front.len() ==> is_white(#[trigger] front[i]),
        forall|i: int| 0 <= i < back.len() ==> is_white(#[trigger] back[i]),
    ensures
        without_white_start(
            without_white_end(
                without_nuls(front + body + back + Seq::new(nuls, |i: int| '\0')),
            ),
        ) == body,
{
    let text = front + body + back;
    nuls_are_dropped(text, nuls);
    white_end_is_dropped(front + body, back);
    assert(text =~= (front + body) + back);
    if body.len() > 0 {
        assert((front + body).last() == body.last());
        white_start_is_dropped(front, body);
    } else {
        assert(front + body =~= front);
        white_end_is_dropped(Seq::empty(), front);
        assert(Seq::<char>::empty() + front =~= front);
        assert(without_white_start(Seq::<char>::empty()) =~= body);
        assert(without_white_end(front) =~= Seq::<char>::empty());
    }
}

/// Zero characters at the end of a text are dropped.
proof fn nuls_are_dropped(text: Seq<char>, nuls: nat)
    requires
        text.len() == 0 || text.last() != '\0',
    ensures
        without_nuls(text + Seq::new(nuls, |i: int| '\0')) == text,
    decreases nuls,
{
    let all = text + Seq::new(nuls, |i: int| '\0');
    if nuls > 0 {
        nuls_are_dropped(text, (nuls - 1) as nat);
        assert(all.drop_last() =~= text + Seq::new((nuls - 1) as nat, |i: int| '\0'));
        assert(all.last() == '\0');
    } else {
        assert(all =~= text);
    }
}

/// White space at the end of a text is dropped.
proof fn white_end_is_dropped(text: Seq<char>, back: Seq<char>)
    requires
        forall|i: int| 0 <= i < back.len() ==> is_white(#[trigger] back[i]),
    ensures
        without_white_end(text + back) == without_white_end(text),
    decreases back.len(),
{
    if back.len() > 0 {
        let rest = back.drop_last();
        assert forall|i: int| 0 <= i < rest.len() implies is_white(#[trigger] rest[i]) by {
            assert(rest[i] == back[i]);
        }
        white_end_is_dropped(text, rest);
        assert((text + back).drop_last() =~= text + rest);
        assert((text + back).last() == back[back.len() - 1]);
    } else {
        assert(text + back =~= text);
    }
}

/// White space at the start of a text is dropped.
proof fn white_start_is_dropped(front: Seq<char>, text: Seq<char>)
    requires
        forall|i: int| 0 <= i < front.len() ==> is_white(#[trigger] front[i]),
        text.len() == 0 || !is_white(text[0]),
    ensures
        without_white_start(front + text) == text,
    decreases front.len(),
{
    if front.len() > 0 {
        let rest = front.drop_first();
        assert forall|i: int| 0 <= i < rest.len() implies is_white(#[trigger] rest[i]) by {
            assert(rest[i] == front[i + 1]);
        }
        white_start_is_dropped(rest, text);
        assert((front + text).drop_first() =~= rest + text);
        assert((front + text)[0] == front[0]);
    } else {
        assert(front + text =~= text);
    }
}

/// The characters that count as white: tabulators, line and page ends, and the spaces of all widths.
pub proof fn white_characters(c: char)
    ensures
        ({
            let code = c as int;
            is_white(c) <==> code == 0x09 || code == 0x0a || code == 0x0b || code == 0x0c || code
                == 0x0d || code == 0x20 || code == 0x85 || code == 0xa0 || code == 0x1680 || (0x2000
                <= code && code < 0x200b) || code == 0x2028 || code == 0x2029 || code == 0x202f
                || code == 0x205f || code == 0x3000
        }),
{
}

/// Three texts without a separator, with one between each two, are split into these texts.
pub proof fn pieces_of_three(a: Seq<char>, b: Seq<char>, c: Seq<char>, separator: char)
    requires
        !a.contains(separator),
        !b.contains(separator),
        !c.contains(separator),
    ensures
        pieces(a + seq![separator] + b + seq![separator] + c, separator) == seq![a, b, c],
{
    let rest = b + seq![separator] + c;
    let whole = a + seq![separator] + b + seq![separator] + c;
    assert(whole =~= a + seq![separator] + rest);
    first_stands_behind(a, rest, separator);
    first_stands_behind(b, c, separator);
    first_is_found(c, separator);
    assert(pieces(c, separator) =~= seq![c]);
    assert((b + seq![separator] + c).skip(b.len() as int + 1) =~= c);
    assert((b + seq![separator] + c).take(b.len() as int) =~= b);
    assert(pieces(rest, separator) =~= seq![b, c]);
    assert(whole.skip(a.len() as int + 1) =~= rest);
    assert(whole.take(a.len() as int) =~= a);
    assert(pieces(whole, separator) =~= seq![a, b, c]);
}

/// The first separator stands behind a text that has none.
proof fn first_stands_behind(a: Seq<char>, rest: Seq<char>, separator: char)
    requires
        !a.contains(separator),
    ensures
        first_of(a + seq![separator] + rest, separator) == a.len(),
    decreases a.len(),
{
    let whole = a + seq![separator] + rest;
    first_is_found(whole, separator);
    let n = first_of(whole, separator) as int;
    assert(whole[a.len() as int] == separator);
    if n < a.len() {
        assert(a[n] == whole[n]);
    }
}

/// Three decimals of a number of thousandths are exact up to four million millions in either direction.
pub proof fn small_numbers_are_shown_exactly(n: int)
    ensures
        shows_exactly(n) <==> -4_000_000_000_000_000 <= n && n <= 4_000_000_000_000_000,
{
}

} // verus!
