//! Text helpers: the few string operations the rest of the crate is built from,
//! each stated over the characters of the text.

use vstd::prelude::*;

verus! {

/// `String::push` adds one character at the end.
pub assume_specification[ String::push ](s: &mut String, c: char)
    ensures
        final(s)@ == old(s)@.push(c),
;

/// `String::push_str` adds a text at the end.
pub assume_specification[ String::push_str ](s: &mut String, other: &str)
    ensures
        final(s)@ == old(s)@ + other@,
;

/// What `str::to_lowercase` makes of a text: its Unicode lowercase mapping.
pub uninterp spec fn lowercase(text: Seq<char>) -> Seq<char>;

/// `str::to_lowercase`: the Unicode lowercase mapping of the text, which is known
/// here only by its name.
#[verifier::external_body]
pub(crate) fn to_lowercase(text: &str) -> (lower: String)
    ensures
        lower@ == lowercase(text@),
{
    text.to_lowercase()
}

/// What `String::from_utf8_lossy` makes of a byte string: its UTF-8 reading, with
/// a replacement character for every malformed part.
pub uninterp spec fn lossy(bytes: Seq<u8>) -> Seq<char>;

/// `String::from_utf8_lossy`: well-formed UTF-8 is read as it is; what becomes of a
/// malformed part is known only by name.
#[verifier::external_body]
pub(crate) fn from_utf8_lossy(bytes: &[u8]) -> (text: String)
    ensures
        text@ == lossy(bytes@),
        vstd::utf8::valid_utf8(bytes@) ==> text@ == vstd::utf8::decode_utf8(bytes@),
{
    String::from_utf8_lossy(bytes).into_owned()
}

/// The characters of a list of strings.
pub open spec fn texts(list: Seq<String>) -> Seq<Seq<char>> {
    list.map_values(|s: String| s@)
}

/// The characters of an optional string.
pub open spec fn optional(text: Option<String>) -> Option<Seq<char>> {
    match text {
        Some(s) => Some(s@),
        None => None,
    }
}

/// The number of bytes a text takes in UTF-8.
pub open spec fn byte_len(text: Seq<char>) -> nat {
    vstd::utf8::encode_utf8(text).len()
}

/// Only the empty text takes no bytes.
pub proof fn lemma_byte_len_zero(text: Seq<char>)
    ensures
        byte_len(text) == 0 <==> text.len() == 0,
{
    vstd::utf8::encode_utf8_decode_utf8(text);
    vstd::utf8::encode_utf8_decode_utf8(Seq::<char>::empty());
    if byte_len(text) == 0 {
        assert(vstd::utf8::encode_utf8(text) =~= vstd::utf8::encode_utf8(Seq::<char>::empty()));
    } else if text.len() == 0 {
        assert(text =~= Seq::<char>::empty());
    }
}

/// The byte length of a text.
pub fn len_of(text: &str) -> (n: usize)
    ensures
        n == byte_len(text@),
{
    text.as_bytes().len()
}

/// Whether two texts are the same.
pub fn same(a: &str, b: &str) -> (r: bool)
    ensures
        r == (a@ == b@),
{
    let x: &[u8] = a.as_bytes();
    let y: &[u8] = b.as_bytes();
    proof {
        vstd::utf8::encode_utf8_decode_utf8(a@);
        vstd::utf8::encode_utf8_decode_utf8(b@);
    }
    if x.len() != y.len() {
        return false;
    }
    let mut i: usize = 0;
    while i < x.len()
        invariant
            i <= x@.len(),
            x@.len() == y@.len(),
            x@ == vstd::utf8::encode_utf8(a@),
            y@ == vstd::utf8::encode_utf8(b@),
            forall|j: int| 0 <= j < i ==> x@[j] == y@[j],
        decreases x@.len() - i,
    {
        if x[i] != y[i] {
            return false;
        }
        i = i + 1;
    }
    assert(x@ =~= y@);
    true
}

/// The characters of a text, in a vector.
pub fn chars_of(text: &str) -> (v: Vec<char>)
    ensures
        v@ == text@,
{
    let mut v: Vec<char> = Vec::new();
    for c in it: text.chars()
        invariant
            v@ == it.seq().take(it.index() as int),
    {
        v.push(c);
        assert(it.seq().take(it.index() + 1) =~= it.seq().take(it.index() as int).push(c));
    }
    v
}

/// `part` occurs in `whole` at position `at`.
pub open spec fn occurs_at(whole: Seq<char>, part: Seq<char>, at: int) -> bool {
    &&& 0 <= at
    &&& at + part.len() <= whole.len()
    &&& whole.subrange(at, at + part.len()) == part
}

/// `part` occurs somewhere in `whole`.
pub open spec fn occurs(whole: Seq<char>, part: Seq<char>) -> bool {
    exists|at: int| #[trigger] occurs_at(whole, part, at)
}

/// Whether `part` occurs in `whole`.
pub fn contains(whole: &str, part: &str) -> (r: bool)
    ensures
        r == occurs(whole@, part@),
{
    let w: Vec<char> = chars_of(whole);
    let p: Vec<char> = chars_of(part);
    if p.len() > w.len() {
        return false;
    }
    let last: usize = w.len() - p.len();
    let mut at: usize = 0;
    loop
        invariant
            w@ == whole@,
            p@ == part@,
            last == w.len() - p.len(),
            at <= last,
            forall|k: int| 0 <= k < at ==> !#[trigger] occurs_at(whole@, part@, k),
        decreases last - at,
    {
        let mut i: usize = 0;
        while i < p.len() && w[at + i] == p[i]
            invariant
                i <= p@.len(),
                at + p.len() <= w.len(),
                forall|k: int| 0 <= k < i ==> w@[at + k] == p@[k],
            decreases p@.len() - i,
        {
            i = i + 1;
        }
        if i == p.len() {
            proof {
                assert(whole@.subrange(at as int, at + part@.len()) =~= part@);
                assert(occurs_at(whole@, part@, at as int));
            }
            return true;
        }
        proof {
            if occurs_at(whole@, part@, at as int) {
                assert(whole@.subrange(at as int, at + part@.len())[i as int] == part@[i as int]);
            }
        }
        if at == last {
            return false;
        }
        at = at + 1;
    }
}

/// The digit character of a number below ten.
pub open spec fn digit(d: nat) -> char {
    (48 + d) as char
}

/// The decimal numeral of a number.
pub open spec fn decimal(n: nat) -> Seq<char>
    decreases n,
{
    if n < 10 {
        seq![digit(n)]
    } else {
        decimal(n / 10).push(digit(n % 10))
    }
}

/// Different numbers have different numerals.
pub proof fn lemma_decimal_injective(a: nat, b: nat)
    requires
        decimal(a) == decimal(b),
    ensures
        a == b,
    decreases a,
{
    lemma_decimal_len(a);
    lemma_decimal_len(b);
    assert(decimal(a).last() == digit(a % 10));
    assert(decimal(b).last() == digit(b % 10));
    assert(a % 10 == b % 10);
    if a >= 10 && b >= 10 {
        assert(decimal(a).drop_last() =~= decimal(a / 10));
        assert(decimal(b).drop_last() =~= decimal(b / 10));
        lemma_decimal_injective(a / 10, b / 10);
    } else if a >= 10 {
        lemma_decimal_len(a / 10);
    } else if b >= 10 {
        lemma_decimal_len(b / 10);
    }
}

proof fn lemma_decimal_len(n: nat)
    ensures
        decimal(n).len() >= 1,
        n >= 10 ==> decimal(n).len() >= 2,
    decreases n,
{
    if n >= 10 {
        lemma_decimal_len(n / 10);
    }
}

/// Writes the decimal numeral of `n` at the end of `out`.
pub fn push_decimal(out: &mut String, n: u64)
    ensures
        final(out)@ == old(out)@ + decimal(n as nat),
    decreases n,
{
    if n >= 10 {
        push_decimal(out, n / 10);
    }
    let d: u8 = (n % 10) as u8;
    out.push((48u8 + d) as char);
    assert(out@ =~= old(out)@ + decimal(n as nat));
}

/// The parts, one after another, with `sep` between neighbours.
pub open spec fn joined(parts: Seq<Seq<char>>, sep: Seq<char>) -> Seq<char>
    decreases parts.len(),
{
    if parts.len() == 0 {
        Seq::empty()
    } else if parts.len() == 1 {
        parts[0]
    } else {
        joined(parts.drop_last(), sep) + sep + parts.last()
    }
}

/// Joins a list of strings with `sep` between neighbours.
pub fn join(list: &Vec<String>, sep: &str) -> (out: String)
    ensures
        out@ == joined(texts(list@), sep@),
{
    let mut out: String = String::new();
    let mut i: usize = 0;
    while i < list.len()
        invariant
            i <= list@.len(),
            out@ == joined(texts(list@).take(i as int), sep@),
        decreases list@.len() - i,
    {
        proof {
            assert(texts(list@).take(i + 1).drop_last() =~= texts(list@).take(i as int));
            assert(texts(list@).take(i + 1).last() == list@[i as int]@);
            if i == 0 {
                assert(out@ + list@[0]@ =~= list@[0]@);
            }
        }
        if i > 0 {
            out.push_str(sep);
        }
        out.push_str(list[i].as_str());
        i = i + 1;
    }
    assert(texts(list@).take(list@.len() as int) =~= texts(list@));
    out
}

/// The number of bytes one character takes in UTF-8.
pub open spec fn width(c: char) -> nat {
    if (c as u32) < 0x80 {
        1
    } else if (c as u32) < 0x800 {
        2
    } else if (c as u32) < 0x10000 {
        3
    } else {
        4
    }
}

fn width_of(c: char) -> (n: usize)
    ensures
        n == width(c),
{
    let v: u32 = c as u32;
    if v < 0x80 {
        1
    } else if v < 0x800 {
        2
    } else if v < 0x10000 {
        3
    } else {
        4
    }
}

/// The bytes of two texts add up.
pub proof fn lemma_byte_len_concat(a: Seq<char>, b: Seq<char>)
    ensures
        byte_len(a + b) == byte_len(a) + byte_len(b),
    decreases a.len(),
{
    if a.len() == 0 {
        assert(a + b =~= b);
    } else {
        lemma_byte_len_concat(a.drop_first(), b);
        assert((a + b).drop_first() =~= a.drop_first() + b);
    }
}

/// One more character adds its width.
pub proof fn lemma_byte_len_push(text: Seq<char>, c: char)
    ensures
        byte_len(text.push(c)) == byte_len(text) + width(c),
{
    lemma_byte_len_concat(text, seq![c]);
    assert(text.push(c) =~= text + seq![c]);
    assert(seq![c].drop_first() =~= Seq::<char>::empty());
    reveal_with_fuel(vstd::utf8::encode_utf8, 2);
}

/// The number of UTF-16 code units of a text.
pub open spec fn utf16_len(text: Seq<char>) -> nat
    decreases text.len(),
{
    if text.len() == 0 {
        0
    } else {
        utf16_len(text.drop_last()) + if text.last() as u32 >= 0x10000 {
            2nat
        } else {
            1nat
        }
    }
}

/// A text takes at least as many bytes as it has UTF-16 code units.
pub proof fn law_code_units_never_exceed_bytes(text: Seq<char>)
    ensures
        utf16_len(text) <= byte_len(text),
    decreases text.len(),
{
    if text.len() > 0 {
        law_code_units_never_exceed_bytes(text.drop_last());
        lemma_byte_len_push(text.drop_last(), text.last());
        assert(text.drop_last().push(text.last()) =~= text);
    }
}

/// A part takes no more bytes than the whole.
pub proof fn lemma_byte_len_take(text: Seq<char>, k: int)
    requires
        0 <= k <= text.len(),
    ensures
        byte_len(text.take(k)) <= byte_len(text),
{
    lemma_byte_len_concat(text.take(k), text.skip(k));
    assert(text.take(k) + text.skip(k) =~= text);
}

/// The most characters from the front of `text` that take at most `max` bytes.
pub open spec fn fitting(text: Seq<char>, max: nat) -> nat
    decreases text.len(),
{
    if byte_len(text) <= max || text.len() == 0 {
        text.len()
    } else {
        fitting(text.drop_last(), max)
    }
}

proof fn lemma_fitting(text: Seq<char>, max: nat, k: int)
    requires
        0 <= k < text.len(),
        byte_len(text.take(k)) <= max,
        byte_len(text.take(k + 1)) > max,
    ensures
        fitting(text, max) == k,
    decreases text.len(),
{
    lemma_byte_len_take(text, k + 1);
    if text.len() == k + 1 {
        assert(text.drop_last() =~= text.take(k));
        assert(fitting(text.take(k), max) == k);
    } else {
        assert(text.drop_last().take(k) =~= text.take(k));
        assert(text.drop_last().take(k + 1) =~= text.take(k + 1));
        lemma_fitting(text.drop_last(), max, k);
    }
}

/// What is kept never takes more than `max` bytes.
pub proof fn lemma_fitting_fits(text: Seq<char>, max: nat)
    ensures
        fitting(text, max) <= text.len(),
        byte_len(text.take(fitting(text, max) as int)) <= max,
    decreases text.len(),
{
    if text.len() == 0 {
        lemma_byte_len_zero(text);
        assert(text.take(0) =~= text);
    } else if byte_len(text) <= max {
        assert(text.take(text.len() as int) =~= text);
    } else {
        lemma_fitting_fits(text.drop_last(), max);
        assert(text.drop_last().take(fitting(text, max) as int) =~= text.take(
            fitting(text, max) as int,
        ));
    }
}

/// The longest front part of `text` that takes at most `max` bytes. It never splits
/// a character.
pub fn cut(text: &str, max: usize) -> (front: String)
    ensures
        front@ == text@.take(fitting(text@, max as nat) as int),
{
    let chars: Vec<char> = chars_of(text);
    let mut front: String = String::new();
    let mut taken: usize = 0;
    let mut i: usize = 0;
    proof {
        lemma_byte_len_zero(text@.take(0));
        assert(front@ =~= text@.take(0));
    }
    while i < chars.len()
        invariant
            chars@ == text@,
            i <= chars.len(),
            front@ == text@.take(i as int),
            taken == byte_len(text@.take(i as int)),
            taken <= max,
        decreases chars.len() - i,
    {
        let n: usize = width_of(chars[i]);
        proof {
            assert(text@.take(i + 1) =~= text@.take(i as int).push(text@[i as int]));
            lemma_byte_len_push(text@.take(i as int), text@[i as int]);
        }
        if n > max - taken {
            proof {
                lemma_fitting(text@, max as nat, i as int);
            }
            return front;
        }
        front.push(chars[i]);
        taken = taken + n;
        i = i + 1;
    }
    assert(text@.take(i as int) =~= text@);
    front
}

/// A text occurs in another exactly where the other can be written around it.
pub proof fn law_occurrence_splits_the_text(whole: Seq<char>, part: Seq<char>)
    ensures
        occurs(whole, part) <==> exists|before: Seq<char>, after: Seq<char>|
            whole == #[trigger] (before + part + after),
{
    if occurs(whole, part) {
        let at = choose|at: int| #[trigger] occurs_at(whole, part, at);
        let before = whole.take(at);
        let after = whole.skip(at + part.len());
        assert(whole =~= before + whole.subrange(at, at + part.len()) + after);
        assert(whole == before + part + after);
    }
    if exists|before: Seq<char>, after: Seq<char>| whole == #[trigger] (before + part + after) {
        let (before, after) = choose|before: Seq<char>, after: Seq<char>|
            whole == #[trigger] (before + part + after);
        let at = before.len() as int;
        assert(whole.subrange(at, at + part.len()) =~= part);
        assert(occurs_at(whole, part, at));
    }
}

/// The number that a sequence of decimal digits stands for.
pub open spec fn numeral_value(digits: Seq<char>) -> int
    decreases digits.len(),
{
    if digits.len() == 0 {
        0
    } else {
        numeral_value(digits.drop_last()) * 10 + (digits.last() as int - '0' as int)
    }
}

/// The numeral of a number reads back as that number: decimal digits and nothing else,
/// without leading zeros.
pub proof fn law_numerals_read_back(n: nat)
    ensures
        numeral_value(decimal(n)) == n,
        forall|i: int| 0 <= i < decimal(n).len() ==> '0' <= #[trigger] decimal(n)[i] <= '9',
        decimal(n).len() > 0,
        decimal(n)[0] == '0' ==> n == 0,
    decreases n,
{
    reveal_with_fuel(numeral_value, 2);
    if n >= 10 {
        law_numerals_read_back(n / 10);
        assert(decimal(n).drop_last() =~= decimal(n / 10));
    } else {
        assert(decimal(n).drop_last() =~= Seq::<char>::empty());
    }
}

/// Joining keeps every part in its place: nothing of no parts, a single part as it is, and
/// of two lists joined in one the joined first, the separator and the joined second.
pub proof fn law_joining_keeps_every_part(
    first: Seq<Seq<char>>,
    part: Seq<char>,
    second: Seq<Seq<char>>,
    sep: Seq<char>,
)
    ensures
        joined(Seq::empty(), sep) == Seq::<char>::empty(),
        joined(seq![part], sep) == part,
        first.len() > 0 && second.len() > 0 ==> joined(first + second, sep) == joined(first, sep)
            + sep + joined(second, sep),
    decreases second.len(),
{
    if first.len() > 0 && second.len() > 0 {
        let rest = second.drop_last();
        assert((first + second).drop_last() =~= first + rest);
        if rest.len() == 0 {
            assert(first + rest =~= first);
        } else {
            law_joining_keeps_every_part(first, part, rest, sep);
            assert(joined(first + second, sep) =~= joined(first, sep) + sep + joined(second, sep));
        }
    }
}

/// What is kept of a text that is cut is as much as fits: one character more would not.
pub proof fn law_cut_keeps_as_much_as_fits(text: Seq<char>, max: nat)
    ensures
        fitting(text, max) <= text.len(),
        byte_len(text.take(fitting(text, max) as int)) <= max,
        forall|k: int|
            fitting(text, max) < k <= text.len() ==> byte_len(#[trigger] text.take(k)) > max,
    decreases text.len(),
{
    lemma_fitting_fits(text, max);
    if byte_len(text) > max && text.len() > 0 {
        let rest = text.drop_last();
        law_cut_keeps_as_much_as_fits(rest, max);
        assert forall|k: int| fitting(text, max) < k <= text.len() implies byte_len(
            #[trigger] text.take(k),
        ) > max by {
            if k < text.len() {
                assert(rest.take(k) =~= text.take(k));
            } else {
                assert(text.take(k) =~= text);
            }
        }
    }
}

/// The bytes of a text are those of its characters together, from one to four for each by
/// its code.
pub proof fn law_bytes_are_those_of_the_characters(a: Seq<char>, c: char, b: Seq<char>)
    ensures
        byte_len(Seq::empty()) == 0,
        byte_len(seq![c]) == if (c as u32) < 0x80 {
            1
        } else if (c as u32) < 0x800 {
            2
        } else if (c as u32) < 0x10000 {
            3
        } else {
            4nat
        },
        byte_len(a + b) == byte_len(a) + byte_len(b),
{
    lemma_byte_len_zero(Seq::empty());
    lemma_byte_len_push(Seq::empty(), c);
    assert(Seq::<char>::empty().push(c) =~= seq![c]);
    lemma_byte_len_concat(a, b);
}

/// The characters of a list of strings are those of each string, in order.
pub proof fn law_texts_are_those_of_the_strings(list: Seq<String>, i: int, text: String)
    requires
        0 <= i < list.len(),
    ensures
        texts(list).len() == list.len(),
        texts(list)[i] == list[i]@,
        optional(Some(text)) == Some(text@),
        optional(None) is None,
{
}

} // verus!
