//! Text: building messages, blankness, byte order, decimal numerals.
//!
//! Verus sees a string as a sequence of characters. Everything here is stated over that view.

use vstd::prelude::*;
use vstd::utf8::encode_utf8;

verus! {

/// The characters with Unicode's `White_Space` property.
pub open spec fn white_space(c: char) -> bool {
    let u = c as u32;
    ||| 0x9 <= u <= 0xD
    ||| u == 0x20
    ||| u == 0x85
    ||| u == 0xA0
    ||| u == 0x1680
    ||| 0x2000 <= u <= 0x200A
    ||| u == 0x2028
    ||| u == 0x2029
    ||| u == 0x202F
    ||| u == 0x205F
    ||| u == 0x3000
}

/// Text that trims to nothing: no character but white space.
pub open spec fn blank(s: Seq<char>) -> bool {
    forall|i: int| 0 <= i < s.len() ==> white_space(#[trigger] s[i])
}

/// The number of bytes of `s` in UTF-8.
pub open spec fn byte_length(s: Seq<char>) -> nat {
    encode_utf8(s).len()
}

/// Lexicographic order of byte strings.
pub open spec fn bytes_before(a: Seq<u8>, b: Seq<u8>) -> bool
    decreases a.len(),
{
    if b.len() == 0 {
        false
    } else if a.len() == 0 {
        true
    } else if a[0] != b[0] {
        a[0] < b[0]
    } else {
        bytes_before(a.drop_first(), b.drop_first())
    }
}

/// The order of strings: that of their UTF-8 bytes.
pub open spec fn before(a: Seq<char>, b: Seq<char>) -> bool {
    bytes_before(encode_utf8(a), encode_utf8(b))
}

/// The decimal numeral of `n`, without leading zeros.
pub open spec fn numeral(n: nat) -> Seq<char>
    decreases n,
{
    if n < 10 {
        seq![digit(n)]
    } else {
        numeral(n / 10).push(digit(n % 10))
    }
}

/// The character of a decimal digit.
pub open spec fn digit(n: nat) -> char {
    ((48 + n) as u8) as char
}

/// The decimal numeral of a whole number, with a minus sign where it is negative.
pub open spec fn signed_numeral(n: int) -> Seq<char> {
    if n < 0 {
        "-"@ + numeral((-n) as nat)
    } else {
        numeral(n as nat)
    }
}

/// An ASCII capital letter made small; every other character as it is.
pub open spec fn small_letter(c: char) -> char {
    if 'A' <= c <= 'Z' {
        ((c as u8) + 32) as char
    } else {
        c
    }
}

/// Text with its ASCII capitals made small.
pub open spec fn small_letters(s: Seq<char>) -> Seq<char> {
    Seq::new(s.len(), |i: int| small_letter(s[i]))
}

/// An ASCII small letter made a capital; every other character as it is.
pub open spec fn capital_letter(c: char) -> char {
    if 'a' <= c <= 'z' {
        ((c as u8) - 32) as char
    } else {
        c
    }
}

/// Text with its ASCII small letters made capitals.
pub open spec fn capital_letters(s: Seq<char>) -> Seq<char> {
    Seq::new(s.len(), |i: int| capital_letter(s[i]))
}

/// How two values of an ordered type stand to each other.
#[derive(Debug, Clone, Copy, PartialEq, Eq, Structural)]
pub enum Relation {
    Less,
    Same,
    Greater,
}

pub proof fn bytes_before_irreflexive(a: Seq<u8>)
    ensures
        !bytes_before(a, a),
    decreases a.len(),
{
    if a.len() > 0 {
        bytes_before_irreflexive(a.drop_first());
    }
}

pub proof fn bytes_before_transitive(a: Seq<u8>, b: Seq<u8>, c: Seq<u8>)
    requires
        bytes_before(a, b),
        bytes_before(b, c),
    ensures
        bytes_before(a, c),
    decreases a.len(),
{
    if a.len() > 0 && a[0] == b[0] && b[0] == c[0] {
        bytes_before_transitive(a.drop_first(), b.drop_first(), c.drop_first());
    }
}

pub proof fn bytes_before_total(a: Seq<u8>, b: Seq<u8>)
    ensures
        bytes_before(a, b) || a == b || bytes_before(b, a),
    decreases a.len(),
{
    if a.len() > 0 && b.len() > 0 && a[0] == b[0] {
        bytes_before_total(a.drop_first(), b.drop_first());
        if a.drop_first() == b.drop_first() {
            assert(a =~= seq![a[0]] + a.drop_first());
            assert(b =~= seq![b[0]] + b.drop_first());
        }
    } else if a.len() == 0 && b.len() == 0 {
        assert(a =~= b);
    }
}

/// UTF-8 gives different texts different bytes.
pub proof fn encoding_is_injective(a: Seq<char>, b: Seq<char>)
    requires
        encode_utf8(a) == encode_utf8(b),
    ensures
        a == b,
{
    vstd::utf8::encode_utf8_decode_utf8(a);
    vstd::utf8::encode_utf8_decode_utf8(b);
}

/// The order of strings is strict: it never holds both ways, nor of a string and itself.
pub proof fn before_is_strict(a: Seq<char>, b: Seq<char>)
    ensures
        !before(a, a),
        !(before(a, b) && before(b, a)),
{
    bytes_before_irreflexive(encode_utf8(a));
    if before(a, b) && before(b, a) {
        bytes_before_transitive(encode_utf8(a), encode_utf8(b), encode_utf8(a));
    }
}

/// The order of strings is transitive.
pub proof fn before_is_transitive(a: Seq<char>, b: Seq<char>, c: Seq<char>)
    requires
        before(a, b),
        before(b, c),
    ensures
        before(a, c),
{
    bytes_before_transitive(encode_utf8(a), encode_utf8(b), encode_utf8(c));
}

/// Of two different strings one comes first.
pub proof fn before_is_total(a: Seq<char>, b: Seq<char>)
    ensures
        before(a, b) || a == b || before(b, a),
{
    bytes_before_total(encode_utf8(a), encode_utf8(b));
    if encode_utf8(a) == encode_utf8(b) {
        encoding_is_injective(a, b);
    }
}

/// How `a` stands to `b` in the order of byte strings.
pub fn relate_bytes(a: &[u8], b: &[u8]) -> (r: Relation)
    ensures
        r == Relation::Less <==> bytes_before(a@, b@),
        r == Relation::Same <==> a@ == b@,
        r == Relation::Greater <==> bytes_before(b@, a@),
{
    let mut i: usize = 0;
    proof {
        assert(a@.skip(0) =~= a@);
        assert(b@.skip(0) =~= b@);
    }
    while i < a.len() && i < b.len() && a[i] == b[i]
        invariant
            i <= a.len(),
            i <= b.len(),
            a@.take(i as int) =~= b@.take(i as int),
            bytes_before(a@, b@) == bytes_before(a@.skip(i as int), b@.skip(i as int)),
            bytes_before(b@, a@) == bytes_before(b@.skip(i as int), a@.skip(i as int)),
        decreases a.len() - i,
    {
        proof {
            assert(a@.skip(i as int).drop_first() =~= a@.skip(i + 1));
            assert(b@.skip(i as int).drop_first() =~= b@.skip(i + 1));
            assert(a@.take(i + 1) =~= a@.take(i as int).push(a@[i as int]));
            assert(b@.take(i + 1) =~= b@.take(i as int).push(b@[i as int]));
        }
        i += 1;
    }
    if i == a.len() && i == b.len() {
        proof {
            assert(a@.take(i as int) =~= a@);
            assert(b@.take(i as int) =~= b@);
            bytes_before_irreflexive(a@);
        }
        Relation::Same
    } else if i == a.len() {
        Relation::Less
    } else if i == b.len() {
        Relation::Greater
    } else if a[i] < b[i] {
        proof {
            assert(a@.skip(i as int)[0] == a@[i as int]);
            assert(b@.skip(i as int)[0] == b@[i as int]);
        }
        Relation::Less
    } else {
        proof {
            assert(a@.skip(i as int)[0] == a@[i as int]);
            assert(b@.skip(i as int)[0] == b@[i as int]);
        }
        Relation::Greater
    }
}

/// How `a` stands to `b` in the order of strings.
pub fn relate(a: &str, b: &str) -> (r: Relation)
    ensures
        r == Relation::Less <==> before(a@, b@),
        r == Relation::Same <==> a@ == b@,
        r == Relation::Greater <==> before(b@, a@),
{
    proof {
        if encode_utf8(a@) == encode_utf8(b@) {
            encoding_is_injective(a@, b@);
        }
    }
    relate_bytes(a.as_bytes(), b.as_bytes())
}

/// Whether two texts are the same.
pub fn same_text(a: &str, b: &str) -> (r: bool)
    ensures
        r == (a@ == b@),
{
    match relate(a, b) {
        Relation::Same => true,
        _ => false,
    }
}

/// Whether `c` is white space.
pub fn is_white_space(c: char) -> (r: bool)
    ensures
        r == white_space(c),
{
    let u: u32 = c as u32;
    (0x9 <= u && u <= 0xD) || u == 0x20 || u == 0x85 || u == 0xA0 || u == 0x1680 || (0x2000 <= u
        && u <= 0x200A) || u == 0x2028 || u == 0x2029 || u == 0x202F || u == 0x205F || u == 0x3000
}

/// Whether nothing but white space stands in `s`.
pub fn is_blank(s: &str) -> (r: bool)
    ensures
        r == blank(s@),
{
    for c in it: s.chars()
        invariant
            it.seq() == s@,
            forall|i: int| 0 <= i < it.index() ==> white_space(#[trigger] s@[i]),
    {
        if !is_white_space(c) {
            proof {
                assert(s@[it.index()] == c);
            }
            return false;
        }
    }
    true
}

/// `a` followed by `b`.
pub fn join(a: &str, b: &str) -> (r: String)
    ensures
        r@ == a@ + b@,
{
    let mut r: String = a.to_owned();
    r.append(b);
    r
}

/// `String::push`: appends one character.
#[verifier::external_body]
pub(crate) fn push_char(s: &mut String, c: char)
    ensures
        final(s)@ == old(s)@.push(c),
{
    s.push(c)
}

/// The decimal numeral of `n`.
pub fn decimal(n: u64) -> (r: String)
    ensures
        r@ == numeral(n as nat),
    decreases n,
{
    let last: u8 = (n % 10) as u8;
    let c: char = (48 + last) as char;
    if n < 10 {
        let mut r: String = String::new();
        push_char(&mut r, c);
        proof {
            assert(r@ =~= seq![digit(n as nat)]);
        }
        r
    } else {
        let mut r: String = decimal(n / 10);
        push_char(&mut r, c);
        r
    }
}

/// The decimal numeral of `n`, signed.
pub fn signed_decimal(n: i64) -> (r: String)
    ensures
        r@ == signed_numeral(n as int),
{
    if n < 0 {
        let magnitude: u64 = (-(n as i128)) as u64;
        join("-", decimal(magnitude).as_str())
    } else {
        decimal(n as u64)
    }
}

/// The characters of `s`.
pub fn characters(s: &str) -> (r: Vec<char>)
    ensures
        r@ == s@,
{
    let mut r: Vec<char> = Vec::new();
    for c in it: s.chars()
        invariant
            it.seq() == s@,
            r@ =~= s@.take(it.index() as int),
    {
        r.push(c);
    }
    r
}

/// `s` with its ASCII capitals made small.
pub fn lowercase(s: &str) -> (r: String)
    ensures
        r@ == small_letters(s@),
{
    let mut r: String = String::new();
    for c in it: s.chars()
        invariant
            it.seq() == s@,
            r@ =~= small_letters(s@.take(it.index() as int)),
    {
        let small: char = if 'A' <= c && c <= 'Z' {
            ((c as u8) + 32) as char
        } else {
            c
        };
        push_char(&mut r, small);
    }
    proof {
        assert(s@.take(s@.len() as int) =~= s@);
    }
    r
}

/// `s` with its ASCII small letters made capitals.
pub fn uppercase(s: &str) -> (r: String)
    ensures
        r@ == capital_letters(s@),
{
    let mut r: String = String::new();
    for c in it: s.chars()
        invariant
            it.seq() == s@,
            r@ =~= capital_letters(s@.take(it.index() as int)),
    {
        let capital: char = if 'a' <= c && c <= 'z' {
            ((c as u8) - 32) as char
        } else {
            c
        };
        push_char(&mut r, capital);
    }
    proof {
        assert(s@.take(s@.len() as int) =~= s@);
    }
    r
}

/// The value of a digit.
pub open spec fn digit_value(c: char) -> Option<nat> {
    if '0' <= c <= '9' {
        Some((c as nat - '0' as nat) as nat)
    } else {
        None
    }
}

/// The number that the first `upto` characters write, where all are digits.
pub open spec fn digits_value(s: Seq<char>, upto: int) -> Option<nat>
    decreases upto,
{
    if upto <= 0 {
        Some(0)
    } else {
        match (digits_value(s, upto - 1), digit_value(s[upto - 1])) {
            (Some(high), Some(low)) => Some(high * 10 + low),
            _ => None,
        }
    }
}

/// The whole number that a text writes: digits, with a sign before them or none.
pub open spec fn written_number(s: Seq<char>) -> Option<int> {
    if s.len() > 0 && (s[0] == '-' || s[0] == '+') {
        let digits = s.skip(1);
        match digits_value(digits, digits.len() as int) {
            Some(n) => if digits.len() == 0 {
                None
            } else if s[0] == '-' {
                Some(-(n as int))
            } else {
                Some(n as int)
            },
            None => None,
        }
    } else {
        match digits_value(s, s.len() as int) {
            Some(n) => if s.len() == 0 {
                None
            } else {
                Some(n as int)
            },
            None => None,
        }
    }
}

/// Numbers up to which a text is read, larger ones counting as no number.
pub const MAX_WRITTEN: u64 = 0xFFFF_FFFF_FFFF_FFFF;

proof fn digits_only_grow(s: Seq<char>, low: int, high: int)
    requires
        0 <= low <= high,
    ensures
        match (digits_value(s, low), digits_value(s, high)) {
            (Some(a), Some(b)) => a <= b,
            (None, Some(_)) => false,
            _ => true,
        },
    decreases high - low,
{
    if low < high {
        digits_only_grow(s, low, high - 1);
    }
}

/// The number that characters from a place on write, where all are digits and it is not too large.
fn read_digits(chars: &Vec<char>, from: usize) -> (r: Option<u64>)
    requires
        from <= chars.len(),
    ensures
        match digits_value(chars@.skip(from as int), chars.len() - from) {
            Some(n) => if n <= MAX_WRITTEN {
                r == Some(n as u64)
            } else {
                r is None
            },
            None => r is None,
        },
{
    let ghost digits = chars@.skip(from as int);
    let mut total: u64 = 0;
    for i in from..chars.len()
        invariant
            from <= chars.len(),
            digits == chars@.skip(from as int),
            digits_value(digits, i - from) == Some(total as nat),
    {
        let c: char = chars[i];
        proof {
            assert(digits[i - from] == c);
            digits_only_grow(digits, i + 1 - from, chars.len() - from);
        }
        if c < '0' || c > '9' {
            return None;
        }
        let digit: u64 = (c as u64) - ('0' as u64);
        match total.checked_mul(10) {
            Some(tens) => match tens.checked_add(digit) {
                Some(next) => {
                    total = next;
                },
                None => return None,
            },
            None => return None,
        }
    }
    Some(total)
}

/// The whole number that a text writes, where it is a signed number of 64 bits.
pub fn parse_signed(s: &str) -> (r: Option<i64>)
    ensures
        match written_number(s@) {
            Some(n) => if i64::MIN <= n <= i64::MAX {
                r == Some(n as i64)
            } else {
                r is None
            },
            None => r is None,
        },
{
    let chars = characters(s);
    if chars.len() == 0 {
        return None;
    }
    proof {
        assert(chars@.skip(0) =~= chars@);
    }
    let signed: bool = chars[0] == '-' || chars[0] == '+';
    if signed && chars.len() == 1 {
        return None;
    }
    let from: usize = if signed {
        1
    } else {
        0
    };
    match read_digits(&chars, from) {
        None => None,
        Some(n) => {
            if chars[0] == '-' {
                if n > 0x8000_0000_0000_0000 {
                    None
                } else {
                    Some((-(n as i128)) as i64)
                }
            } else if n > 0x7FFF_FFFF_FFFF_FFFF {
                None
            } else {
                Some(n as i64)
            }
        },
    }
}

/// The whole number that a text writes without a minus sign, where it is a size.
pub fn parse_size(s: &str) -> (r: Option<usize>)
    ensures
        match written_number(s@) {
            Some(n) => if n <= usize::MAX && s@[0] != '-' {
                r == Some(n as usize)
            } else {
                r is None
            },
            None => r is None,
        },
{
    let chars = characters(s);
    if chars.len() == 0 || chars[0] == '-' {
        return None;
    }
    proof {
        assert(chars@.skip(0) =~= chars@);
    }
    let signed: bool = chars[0] == '+';
    if signed && chars.len() == 1 {
        return None;
    }
    let from: usize = if signed {
        1
    } else {
        0
    };
    match read_digits(&chars, from) {
        None => None,
        Some(n) => {
            if n > usize::MAX as u64 {
                None
            } else {
                Some(n as usize)
            }
        },
    }
}

/// The views of a list of texts.
pub open spec fn text_views(texts: Seq<String>) -> Seq<Seq<char>> {
    Seq::new(texts.len(), |i: int| texts[i]@)
}

/// Whether texts stand in their order, none twice.
pub open spec fn in_order(texts: Seq<Seq<char>>) -> bool {
    forall|i: int, j: int|
        0 <= i < j < texts.len() ==> before(#[trigger] texts[i], #[trigger] texts[j])
}

pub fn clone_texts(texts: &Vec<String>) -> (r: Vec<String>)
    ensures
        text_views(r@) == text_views(texts@),
{
    let mut r: Vec<String> = Vec::new();
    for i in 0..texts.len()
        invariant
            r.len() == i,
            forall|k: int| 0 <= k < i ==> (#[trigger] r@[k])@ == texts@[k]@,
    {
        r.push(texts[i].clone());
    }
    proof {
        assert(text_views(r@) =~= text_views(texts@));
    }
    r
}

/// Puts a text in its place among texts in order, unless it is there.
pub fn insert_text(texts: &mut Vec<String>, text: &str)
    requires
        in_order(text_views(old(texts)@)),
    ensures
        in_order(text_views(final(texts)@)),
        forall|t: Seq<char>| #[trigger]
            text_views(final(texts)@).contains(t) <==> text_views(old(texts)@).contains(t) || t
                == text@,
{
    let ghost views = text_views(texts@);
    let count: usize = texts.len();
    let mut at: usize = 0;
    while at < count
        invariant
            at <= count,
            count == texts.len(),
            texts@ == old(texts)@,
            views == text_views(texts@),
            in_order(views),
            forall|k: int| 0 <= k < at ==> before(#[trigger] views[k], text@),
        decreases count - at,
    {
        match relate(texts[at].as_str(), text) {
            Relation::Less => {
                proof {
                    assert(before(views[at as int], text@));
                }
                at += 1;
            },
            Relation::Same => {
                proof {
                    assert(views[at as int] == text@);
                }
                return ;
            },
            Relation::Greater => {
                proof {
                    assert(before(text@, views[at as int]));
                    assert forall|k: int| at <= k < views.len() implies before(
                        text@,
                        #[trigger] views[k],
                    ) by {
                        if at < k {
                            before_is_transitive(text@, views[at as int], views[k]);
                        }
                    }
                    inserted_in_order(views, at as int, text@);
                }
                texts.insert(at, text.to_owned());
                proof {
                    assert(text_views(texts@) =~= views.insert(at as int, text@));
                }
                return ;
            },
        }
    }
    proof {
        inserted_in_order(views, at as int, text@);
    }
    texts.push(text.to_owned());
    proof {
        assert(text_views(texts@) =~= views.insert(at as int, text@));
    }
}

/// A text put where those before it come first and those behind it later.
proof fn inserted_in_order(texts: Seq<Seq<char>>, at: int, text: Seq<char>)
    requires
        in_order(texts),
        0 <= at <= texts.len(),
        forall|k: int| 0 <= k < at ==> before(#[trigger] texts[k], text),
        forall|k: int| at <= k < texts.len() ==> before(text, #[trigger] texts[k]),
    ensures
        in_order(texts.insert(at, text)),
        forall|t: Seq<char>| #[trigger]
            texts.insert(at, text).contains(t) <==> texts.contains(t) || t == text,
{
    let next = texts.insert(at, text);
    assert forall|i: int, j: int| 0 <= i < j < next.len() implies before(
        #[trigger] next[i],
        #[trigger] next[j],
    ) by {
        let a = if i < at { i } else { i - 1 };
        let b = if j < at { j } else { j - 1 };
        if i != at {
            assert(next[i] == texts[a]);
        }
        if j != at {
            assert(next[j] == texts[b]);
        }
    }
    assert forall|t: Seq<char>| #[trigger] next.contains(t) <==> texts.contains(t) || t == text by {
        if texts.contains(t) {
            let k = choose|k: int| 0 <= k < texts.len() && texts[k] == t;
            let j = if k < at { k } else { k + 1 };
            assert(next[j] == t);
        }
        if t == text {
            assert(next[at] == t);
        }
        if next.contains(t) {
            let j = choose|j: int| 0 <= j < next.len() && next[j] == t;
            if j != at {
                let k = if j < at { j } else { j - 1 };
                assert(texts[k] == t);
            }
        }
    }
}

/// The place of a character behind the last full stop of `s`.
pub open spec fn behind_last_stop(s: Seq<char>) -> int
    decreases s.len(),
{
    if s.len() == 0 {
        0
    } else if s.last() == '.' {
        s.len() as int
    } else {
        behind_last_stop(s.drop_last())
    }
}

/// A column's name without the table that qualifies it: what stands behind the last full stop.
pub open spec fn short_name(s: Seq<char>) -> Seq<char> {
    s.skip(behind_last_stop(s))
}

pub proof fn behind_last_stop_is_within(s: Seq<char>)
    ensures
        0 <= behind_last_stop(s) <= s.len(),
        behind_last_stop(s) > 0 ==> s[behind_last_stop(s) - 1] == '.',
        forall|i: int| behind_last_stop(s) <= i < s.len() ==> s[i] != '.',
    decreases s.len(),
{
    if s.len() > 0 && s.last() != '.' {
        behind_last_stop_is_within(s.drop_last());
        assert forall|i: int| behind_last_stop(s) <= i < s.len() implies s[i] != '.' by {
            if i < s.len() - 1 {
                assert(s.drop_last()[i] == s[i]);
            }
        }
    }
}

/// Whether a name is qualified.
pub open spec fn has_stop(s: Seq<char>) -> bool {
    s.contains('.')
}

/// Whether a name is qualified.
pub fn contains_stop(s: &str) -> (r: bool)
    ensures
        r == has_stop(s@),
{
    for c in it: s.chars()
        invariant
            it.seq() == s@,
            forall|i: int| 0 <= i < it.index() ==> s@[i] != '.',
    {
        if c == '.' {
            proof {
                assert(s@[it.index()] == '.');
            }
            return true;
        }
    }
    false
}

/// A column's name without the table that qualifies it.
pub fn unqualified(name: &str) -> (r: &str)
    ensures
        r@ == short_name(name@),
{
    let mut length: usize = 0;
    let mut from: usize = 0;
    proof {
        assert(name@.take(0) =~= Seq::empty());
    }
    let total: usize = name.unicode_len();
    for c in it: name.chars()
        invariant
            it.seq() == name@,
            total == name@.len(),
            length == it.index(),
            from == behind_last_stop(name@.take(it.index() as int)),
    {
        proof {
            let i = it.index() as int;
            assert(name@.take(i + 1).drop_last() =~= name@.take(i));
            assert(name@.take(i + 1).last() == c);
        }
        length += 1;
        if c == '.' {
            from = length;
        }
    }
    proof {
        assert(name@.take(total as int) =~= name@);
        behind_last_stop_is_within(name@);
        assert(name@.subrange(from as int, total as int) =~= short_name(name@));
    }
    name.substring_char(from, total)
}

/// A text in quotation marks as the standard library's `Debug` prints it, with escapes.
pub uninterp spec fn quoted(text: Seq<char>) -> Seq<char>;

/// `Debug` of a `str`: the text in quotation marks, with some characters escaped.
#[verifier::external_body]
pub(crate) fn quote(text: &str) -> (r: String)
    ensures
        r@ == quoted(text@),
{
    format!("{:?}", text)
}

/// The first `upto` texts, with commas between them.
pub open spec fn listed(texts: Seq<Seq<char>>, upto: int) -> Seq<char>
    decreases upto,
{
    if upto <= 0 {
        Seq::empty()
    } else if upto == 1 {
        texts[0]
    } else {
        listed(texts, upto - 1) + ", "@ + texts[upto - 1]
    }
}

/// All texts, with commas between them.
pub open spec fn list(texts: Seq<Seq<char>>) -> Seq<char> {
    listed(texts, texts.len() as int)
}

/// All texts, with commas between them.
pub fn comma_list(texts: &Vec<String>) -> (r: String)
    ensures
        r@ == list(text_views(texts@)),
{
    let ghost views = text_views(texts@);
    let mut r: String = String::new();
    for i in 0..texts.len()
        invariant
            views == text_views(texts@),
            r@ == listed(views, i as int),
    {
        proof {
            assert(views[i as int] == texts@[i as int]@);
        }
        if i == 0 {
            r = texts[0].clone();
        } else {
            r.append(", ");
            r.append(texts[i].as_str());
        }
    }
    r
}

} // verus!
