//! Small verified tools on text: strings seen as sequences of characters.

use vstd::prelude::*;

verus! {

/// `String::push` of the standard library appends one character to the end
/// of the string and changes nothing else.
pub assume_specification[ std::string::String::push ](s: &mut std::string::String, c: char)
    ensures
        final(s)@ == old(s)@.push(c),
;

/// The views of a sequence of strings.
pub open spec fn texts(v: Seq<String>) -> Seq<Seq<char>> {
    Seq::new(v.len(), |i: int| v[i]@)
}

/// The pieces of `s` between the occurrences of `sep`: one more piece than
/// there are separators, so the empty text has one empty piece.
pub open spec fn split(s: Seq<char>, sep: char) -> Seq<Seq<char>>
    decreases s.len(),
{
    if s.len() == 0 {
        seq![Seq::<char>::empty()]
    } else {
        let before = split(s.drop_last(), sep);
        if s.last() == sep {
            before.push(Seq::<char>::empty())
        } else {
            before.drop_last().push(before.last().push(s.last()))
        }
    }
}

/// The pieces joined again, with `sep` between neighbours.
pub open spec fn join(pieces: Seq<Seq<char>>, sep: char) -> Seq<char>
    decreases pieces.len(),
{
    if pieces.len() == 0 {
        Seq::<char>::empty()
    } else if pieces.len() == 1 {
        pieces[0]
    } else {
        join(pieces.drop_last(), sep).push(sep) + pieces.last()
    }
}

/// Splitting always yields at least one piece.
pub proof fn lemma_split_nonempty(s: Seq<char>, sep: char)
    ensures
        split(s, sep).len() >= 1,
    decreases s.len(),
{
    if s.len() > 0 {
        lemma_split_nonempty(s.drop_last(), sep);
    }
}

/// Splitting loses nothing: no piece holds the separator, and the pieces
/// joined with the separator give the text back.
pub proof fn lemma_split_join(s: Seq<char>, sep: char)
    ensures
        join(split(s, sep), sep) == s,
        forall|i: int, j: int|
            0 <= i < split(s, sep).len() && 0 <= j < split(s, sep)[i].len() ==> split(s, sep)[i][j]
                != sep,
    decreases s.len(),
{
    if s.len() == 0 {
        assert(join(split(s, sep), sep) =~= s);
    } else {
        let t = s.drop_last();
        let before = split(t, sep);
        lemma_split_join(t, sep);
        lemma_split_nonempty(t, sep);
        if s.last() == sep {
            let now = before.push(Seq::<char>::empty());
            assert(now.drop_last() =~= before);
            assert(join(now, sep) =~= join(before, sep).push(sep));
            assert(join(now, sep) =~= s);
        } else {
            let piece = before.last().push(s.last());
            let now = before.drop_last().push(piece);
            assert(now.drop_last() =~= before.drop_last());
            if before.len() == 1 {
                assert(before[0] == t);
                assert(now.len() == 1 && now[0] == piece);
                assert(piece =~= s);
            } else {
                assert(join(before, sep) == join(before.drop_last(), sep).push(sep) + before.last());
                let head = join(before.drop_last(), sep).push(sep);
                assert(join(now, sep) =~= head + piece);
                assert(s =~= t.push(s.last()));
                assert((head + before.last()).push(s.last()) =~= head + piece);
            }
        }
    }
}

/// A text without the separator is one piece.
pub proof fn lemma_split_whole(s: Seq<char>, sep: char)
    requires
        forall|k: int| 0 <= k < s.len() ==> s[k] != sep,
    ensures
        split(s, sep) == seq![s],
    decreases s.len(),
{
    if s.len() == 0 {
        assert(s =~= Seq::<char>::empty());
    } else {
        let t = s.drop_last();
        lemma_split_whole(t, sep);
        let before = split(t, sep);
        assert(before == seq![t]);
        assert(before.len() == 1 && before.last() == t);
        assert(t.push(s.last()) =~= s);
        assert(before.drop_last() =~= Seq::<Seq<char>>::empty());
        assert(before.drop_last().push(before.last().push(s.last())) =~= seq![s]);
    }
}

/// The first piece is what stands before the first separator.
pub proof fn lemma_split_first(s: Seq<char>, sep: char, i: int)
    requires
        0 <= i <= s.len(),
        forall|k: int| 0 <= k < i ==> s[k] != sep,
        i == s.len() || s[i] == sep,
    ensures
        split(s, sep)[0] == s.take(i),
        i < s.len() ==> split(s, sep).len() >= 2,
    decreases s.len(),
{
    lemma_split_nonempty(s, sep);
    if i == s.len() {
        lemma_split_whole(s, sep);
        assert(s.take(i) =~= s);
    } else {
        let t = s.drop_last();
        let before = split(t, sep);
        lemma_split_nonempty(t, sep);
        if i == t.len() {
            lemma_split_whole(t, sep);
            assert(s.take(i) =~= t);
        } else {
            lemma_split_first(t, sep, i);
            assert(t.take(i) =~= s.take(i));
        }
    }
}

/// A text with one separator is two pieces: what stands before it and
/// what stands behind it.
pub proof fn lemma_split_once(s: Seq<char>, sep: char, i: int)
    requires
        0 <= i < s.len(),
        s[i] == sep,
        forall|k: int| 0 <= k < s.len() && k != i ==> s[k] != sep,
    ensures
        split(s, sep) == seq![s.take(i), s.skip(i + 1)],
    decreases s.len(),
{
    let t = s.drop_last();
    if i == s.len() - 1 {
        lemma_split_whole(t, sep);
        assert(s.take(i) =~= t);
        assert(s.skip(i + 1) =~= Seq::<char>::empty());
        assert(seq![t].push(Seq::<char>::empty()) =~= seq![s.take(i), s.skip(i + 1)]);
    } else {
        lemma_split_once(t, sep, i);
        let before = split(t, sep);
        assert(before.drop_last() =~= seq![t.take(i)]);
        assert(t.take(i) =~= s.take(i));
        assert(t.skip(i + 1).push(s.last()) =~= s.skip(i + 1));
        assert(before.drop_last().push(before.last().push(s.last())) =~= seq![
            s.take(i),
            s.skip(i + 1),
        ]);
    }
}

/// The characters of `s`, in order.
pub fn chars_of(s: &str) -> (v: Vec<char>)
    ensures
        v@ == s@,
{
    let mut v: Vec<char> = Vec::new();
    for c in it: s.chars()
        invariant
            it.seq() == s@,
            v@ == s@.take(it.index() as int),
    {
        v.push(c);
        assert(v@ =~= s@.take(it.index() + 1));
    }
    assert(v@ =~= s@);
    v
}

/// The text made of the characters `v[from..to]`.
pub fn string_of(v: &Vec<char>, from: usize, to: usize) -> (s: String)
    requires
        from <= to <= v.len(),
    ensures
        s@ == v@.subrange(from as int, to as int),
{
    let mut s = String::new();
    let mut i: usize = from;
    while i < to
        invariant
            from <= i <= to <= v.len(),
            s@ == v@.subrange(from as int, i as int),
        decreases to - i,
    {
        s.push(v[i]);
        i += 1;
        assert(s@ =~= v@.subrange(from as int, i as int));
    }
    s
}

/// Cuts `v` at every `sep`.
pub fn split_chars(v: &Vec<char>, sep: char) -> (pieces: Vec<String>)
    ensures
        texts(pieces@) == split(v@, sep),
{
    let mut pieces: Vec<String> = Vec::new();
    let mut start: usize = 0;
    let mut i: usize = 0;
    assert(v@.take(0) =~= Seq::<char>::empty());
    assert(texts(pieces@).push(v@.subrange(0, 0)) =~= split(v@.take(0), sep));
    while i < v.len()
        invariant
            start <= i <= v.len(),
            texts(pieces@).push(v@.subrange(start as int, i as int)) == split(v@.take(i as int), sep),
        decreases v.len() - i,
    {
        let ghost before = split(v@.take(i as int), sep);
        assert(v@.take(i + 1).drop_last() =~= v@.take(i as int));
        assert(v@.take(i + 1).last() == v@[i as int]);
        if v[i] == sep {
            let piece = string_of(v, start, i);
            let ghost old_pieces = pieces@;
            pieces.push(piece);
            assert(texts(pieces@) =~= texts(old_pieces).push(piece@));
            start = i + 1;
            i += 1;
            assert(v@.subrange(start as int, i as int) =~= Seq::<char>::empty());
        } else {
            i += 1;
            assert(before.drop_last() =~= texts(pieces@));
            assert(v@.subrange(start as int, i as int) =~= before.last().push(v@[i - 1]));
        }
    }
    assert(v@.take(v.len() as int) =~= v@);
    let piece = string_of(v, start, i);
    let ghost old_pieces = pieces@;
    pieces.push(piece);
    assert(texts(pieces@) =~= texts(old_pieces).push(piece@));
    pieces
}

/// `c` is one of the ten decimal digits.
pub open spec fn is_digit(c: char) -> bool {
    '0' <= c <= '9'
}

/// The number that a run of decimal digits spells.
pub open spec fn decimal(digits: Seq<char>) -> nat
    decreases digits.len(),
{
    if digits.len() == 0 {
        0
    } else {
        decimal(digits.drop_last()) * 10 + (digits.last() as nat - '0' as nat) as nat
    }
}

/// `digits` is a run of decimal digits, at least one.
pub open spec fn all_digits(digits: Seq<char>) -> bool {
    digits.len() > 0 && forall|i: int| 0 <= i < digits.len() ==> is_digit(digits[i])
}

/// The integer that `text` spells: an optional `+` or `-`, then decimal
/// digits, at least one, and a value that a signed 64-bit integer holds.
pub open spec fn integer_of(text: Seq<char>) -> Option<int> {
    let signed = text.len() > 0 && (text[0] == '-' || text[0] == '+');
    let digits = if signed {
        text.skip(1)
    } else {
        text
    };
    let value = if signed && text[0] == '-' {
        -(decimal(digits) as int)
    } else {
        decimal(digits) as int
    };
    if all_digits(digits) && i64::MIN <= value <= i64::MAX {
        Some(value)
    } else {
        None
    }
}

/// A longer run of digits spells no smaller number.
pub proof fn lemma_decimal_grows(digits: Seq<char>, n: int)
    requires
        0 <= n <= digits.len(),
        forall|i: int| 0 <= i < digits.len() ==> is_digit(digits[i]),
    ensures
        decimal(digits.take(n)) <= decimal(digits),
    decreases digits.len() - n,
{
    if n < digits.len() {
        lemma_decimal_grows(digits, n + 1);
        assert(digits.take(n + 1).drop_last() =~= digits.take(n));
    } else {
        assert(digits.take(n) =~= digits);
    }
}

/// Reads a signed decimal integer, as `str::parse` does for `i64`.
#[verifier::loop_isolation(false)]
pub fn parse_integer(text: &str) -> (r: Option<i64>)
    ensures
        match integer_of(text@) {
            Some(v) => r == Some(v as i64),
            None => r is None,
        },
{
    let chars = chars_of(text);
    let mut start: usize = 0;
    let mut negative = false;
    if chars.len() > 0 && (chars[0] == '-' || chars[0] == '+') {
        negative = chars[0] == '-';
        start = 1;
    }
    let ghost digits = chars@.skip(start as int);
    assert(chars@.skip(0) =~= chars@);
    assert(digits.len() == chars.len() - start);
    if start == chars.len() {
        return None;
    }
    let limit: u128 = 0x8000_0000_0000_0000u128;
    let mut value: u128 = 0;
    let mut i: usize = start;
    assert(digits.take(0) =~= Seq::<char>::empty());
    while i < chars.len()
        invariant
            start <= i <= chars.len(),
            start < chars.len(),
            digits == chars@.skip(start as int),
            limit == 0x8000_0000_0000_0000u128,
            forall|k: int| 0 <= k < i - start ==> is_digit(digits[k]),
            value == decimal(digits.take(i - start)),
            value <= limit,
        decreases chars.len() - i,
    {
        let c = chars[i];
        assert(digits[i - start] == c);
        if !('0' <= c && c <= '9') {
            return None;
        }
        assert(digits.take(i - start + 1).drop_last() =~= digits.take(i - start));
        assert(digits.take(i - start + 1).last() == c);
        let d: u128 = (c as u32 - '0' as u32) as u128;
        let next: u128 = value * 10 + d;
        if next > limit {
            assert(next == decimal(digits.take(i - start + 1)));
            // Out of range, if only digits follow.
            let mut j: usize = i + 1;
            while j < chars.len()
                invariant
                    i < j <= chars.len(),
                    digits == chars@.skip(start as int),
                    start <= i,
                    forall|k: int| 0 <= k < j - start ==> is_digit(digits[k]),
                decreases chars.len() - j,
            {
                let c2 = chars[j];
                assert(digits[j - start] == c2);
                if !('0' <= c2 && c2 <= '9') {
                    return None;
                }
                j += 1;
            }
            proof {
                assert forall|k: int| 0 <= k < digits.len() implies is_digit(digits[k]) by {}
                lemma_decimal_grows(digits, i - start + 1);
            }
            return None;
        }
        value = next;
        i += 1;
    }
    assert(digits.take(chars.len() - start) =~= digits);
    if negative {
        if value == limit {
            Some(i64::MIN)
        } else {
            Some(-(value as i64))
        }
    } else if value == limit {
        None
    } else {
        Some(value as i64)
    }
}

/// The decimal digit for a number below ten.
pub open spec fn digit_char(d: nat) -> char {
    ((d + 48) as u8) as char
}

/// The decimal digits that spell `n`, without leading zeros.
pub open spec fn decimal_text(n: nat) -> Seq<char>
    decreases n,
{
    if n < 10 {
        seq![digit_char(n)]
    } else {
        decimal_text(n / 10).push(digit_char(n % 10))
    }
}

/// `s` with `fill` put before it until it has `width` characters; a longer
/// text is left as it is.
pub open spec fn padded(s: Seq<char>, width: nat, fill: char) -> Seq<char> {
    if s.len() >= width {
        s
    } else {
        Seq::new((width - s.len()) as nat, |i: int| fill) + s
    }
}

/// The decimal digits that spell `n`.
pub fn number_text(n: u32) -> (r: String)
    ensures
        r@ == decimal_text(n as nat),
    decreases n,
{
    let last = (n % 10) as u8;
    let c = (last + 48) as char;
    assert(c == digit_char((n % 10) as nat));
    if n < 10 {
        let mut r = String::new();
        r.push(c);
        assert(r@ =~= seq![digit_char(n as nat)]);
        r
    } else {
        let mut r = number_text(n / 10);
        r.push(c);
        r
    }
}

/// `s` with `fill` put before it until it has `width` characters.
pub fn pad_left(s: &str, width: usize, fill: char) -> (r: String)
    ensures
        r@ == padded(s@, width as nat, fill),
{
    let chars = chars_of(s);
    let mut r = String::new();
    if chars.len() < width {
        let missing = width - chars.len();
        let mut i: usize = 0;
        while i < missing
            invariant
                i <= missing,
                r@ == Seq::new(i as nat, |k: int| fill),
            decreases missing - i,
        {
            r.push(fill);
            i += 1;
            assert(r@ =~= Seq::new(i as nat, |k: int| fill));
        }
    } else {
        assert(r@ + s@ =~= s@);
    }
    r.append(s);
    r
}

/// The number that `text` spells in decimal digits, at least one, if an
/// unsigned 32-bit integer holds it.
pub open spec fn natural_of(text: Seq<char>) -> Option<nat> {
    if all_digits(text) && decimal(text) <= u32::MAX {
        Some(decimal(text))
    } else {
        None
    }
}

/// Reads an unsigned decimal number.
pub fn parse_natural(text: &str) -> (r: Option<u32>)
    ensures
        match natural_of(text@) {
            Some(n) => r == Some(n as u32),
            None => r is None,
        },
{
    let chars = chars_of(text);
    match parse_integer(text) {
        Some(v) => {
            if chars.len() > 0 && (chars[0] == '-' || chars[0] == '+') {
                assert(!is_digit(text@[0]));
                None
            } else if v > u32::MAX as i64 {
                None
            } else {
                assert(v >= 0);
                Some(v as u32)
            }
        },
        None => {
            if chars.len() > 0 && (chars[0] == '-' || chars[0] == '+') {
                assert(!is_digit(text@[0]));
            }
            None
        },
    }
}

} // verus!
