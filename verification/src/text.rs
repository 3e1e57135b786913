//! Text as a sequence of characters: classes of characters, splitting,
//! trimming, case folding, searching and decimal numbers.

use vstd::prelude::*;

verus! {

/// `String::push` appends one character to the end of the string.
pub assume_specification[ String::push ](s: &mut String, c: char)
    ensures
        final(s)@ == old(s)@.push(c),
;

/// A class of characters that text can be split at or trimmed of.
pub enum CharClass {
    /// The Unicode `White_Space` property.
    Whitespace,
    /// One given character.
    Only(char),
}

/// The characters with the Unicode `White_Space` property.
pub open spec fn is_white_space(c: char) -> bool {
    ||| 0x09 <= c as u32 <= 0x0d
    ||| c as u32 == 0x20
    ||| c as u32 == 0x85
    ||| c as u32 == 0xa0
    ||| c as u32 == 0x1680
    ||| 0x2000 <= c as u32 <= 0x200a
    ||| c as u32 == 0x2028
    ||| c as u32 == 0x2029
    ||| c as u32 == 0x202f
    ||| c as u32 == 0x205f
    ||| c as u32 == 0x3000
}

impl CharClass {
    /// Membership of a character in the class.
    pub open spec fn has(self, c: char) -> bool {
        match self {
            CharClass::Whitespace => is_white_space(c),
            CharClass::Only(d) => c == d,
        }
    }

    /// Tells whether `c` belongs to the class.
    pub fn contains(&self, c: char) -> (r: bool)
        ensures
            r == self.has(c),
    {
        match self {
            CharClass::Whitespace => {
                let n: u32 = c as u32;
                (0x09 <= n && n <= 0x0d) || n == 0x20 || n == 0x85 || n == 0xa0 || n == 0x1680 || (
                0x2000 <= n && n <= 0x200a) || n == 0x2028 || n == 0x2029 || n == 0x202f || n
                    == 0x205f || n == 0x3000
            },
            CharClass::Only(d) => c == *d,
        }
    }
}

// ---------------------------------------------------------------------------
// Conversions
// ---------------------------------------------------------------------------
/// The characters of a string slice.
pub fn chars_of(s: &str) -> (r: Vec<char>)
    ensures
        r@ == s@,
{
    let mut v: Vec<char> = Vec::new();
    for c in it: s.chars()
        invariant
            v@ == s@.take(it.index()),
            it.seq() == s@,
    {
        v.push(c);
        proof {
            assert(s@.take(it.index() + 1) == s@.take(it.index()).push(c));
        }
    }
    proof {
        assert(s@.take(s@.len() as int) == s@);
    }
    v
}

/// The string made of the given characters.
pub fn string_of(cs: &Vec<char>) -> (r: String)
    ensures
        r@ == cs@,
{
    let mut s = String::new();
    let mut i: usize = 0;
    while i < cs.len()
        invariant
            i <= cs.len(),
            s@ == cs@.take(i as int),
        decreases cs.len() - i,
    {
        s.push(cs[i]);
        proof {
            assert(cs@.take(i + 1) == cs@.take(i as int).push(cs@[i as int]));
        }
        i += 1;
    }
    proof {
        assert(cs@.take(cs@.len() as int) == cs@);
    }
    s
}

/// Equality of two string slices.
pub fn same_text(a: &str, b: &str) -> (r: bool)
    ensures
        r == (a@ == b@),
{
    let x = a.to_owned();
    let y = b.to_owned();
    x == y
}

// ---------------------------------------------------------------------------
// Splitting
// ---------------------------------------------------------------------------
/// The pieces between the separators of `class`: one more than there are
/// separators, empty pieces kept.
pub open spec fn pieces(s: Seq<char>, class: CharClass) -> Seq<Seq<char>>
    decreases s.len(),
{
    if s.len() == 0 {
        seq![Seq::<char>::empty()]
    } else {
        let before = pieces(s.drop_last(), class);
        if class.has(s.last()) {
            before.push(Seq::<char>::empty())
        } else {
            before.update(before.len() - 1, before.last().push(s.last()))
        }
    }
}

/// The characters of every element of a vector of vectors.
pub open spec fn rows(v: Seq<Vec<char>>) -> Seq<Seq<char>> {
    v.map_values(|r: Vec<char>| r@)
}

/// Splitting gives at least one piece.
pub proof fn lemma_pieces_nonempty(s: Seq<char>, class: CharClass)
    ensures
        pieces(s, class).len() >= 1,
    decreases s.len(),
{
    if s.len() > 0 {
        lemma_pieces_nonempty(s.drop_last(), class);
    }
}

/// Splits text at every character of `class`.
pub fn split(s: &Vec<char>, class: &CharClass) -> (r: Vec<Vec<char>>)
    ensures
        rows(r@) == pieces(s@, *class),
{
    let mut done: Vec<Vec<char>> = Vec::new();
    let mut piece: Vec<char> = Vec::new();
    let mut i: usize = 0;
    proof {
        assert(s@.take(0) == Seq::<char>::empty());
        assert(rows(done@).push(piece@) == seq![Seq::<char>::empty()]);
    }
    while i < s.len()
        invariant
            i <= s.len(),
            rows(done@).push(piece@) == pieces(s@.take(i as int), *class),
        decreases s.len() - i,
    {
        let c = s[i];
        let ghost before = pieces(s@.take(i as int), *class);
        let ghost done0 = done@;
        let ghost piece0 = piece@;
        proof {
            assert(s@.take(i + 1).drop_last() == s@.take(i as int));
            assert(s@.take(i + 1).last() == c);
        }
        if class.contains(c) {
            done.push(piece);
            piece = Vec::new();
            proof {
                assert(rows(done@) == before);
                assert(rows(done@).push(piece@) == pieces(s@.take(i + 1), *class));
            }
        } else {
            piece.push(c);
            proof {
                assert(before.last() == piece0);
                assert(rows(done@).push(piece@) == before.update(
                    before.len() - 1,
                    before.last().push(c),
                ));
            }
        }
        i += 1;
    }
    done.push(piece);
    proof {
        assert(s@.take(s@.len() as int) == s@);
        assert(rows(done@) == pieces(s@, *class));
    }
    done
}

/// Text without a separator is its own single piece.
pub proof fn lemma_pieces_whole(s: Seq<char>, class: CharClass)
    requires
        forall|i: int| 0 <= i < s.len() ==> !class.has(#[trigger] s[i]),
    ensures
        pieces(s, class) == seq![s],
    decreases s.len(),
{
    if s.len() > 0 {
        let t = s.drop_last();
        assert forall|i: int| 0 <= i < t.len() implies !class.has(#[trigger] t[i]) by {
            assert(t[i] == s[i]);
        }
        lemma_pieces_whole(t, class);
        assert(s.last() == s[s.len() - 1]);
        assert(t.push(s.last()) == s);
        assert(seq![t].update(0, s) == seq![s]);
    } else {
        assert(s == Seq::<char>::empty());
    }
}

/// A separator and separator-free text add one piece.
pub proof fn lemma_pieces_join(a: Seq<char>, sep: char, b: Seq<char>, class: CharClass)
    requires
        class.has(sep),
        forall|i: int| 0 <= i < b.len() ==> !class.has(#[trigger] b[i]),
    ensures
        pieces(a + seq![sep] + b, class) == pieces(a, class).push(b),
    decreases b.len(),
{
    let whole = a + seq![sep] + b;
    let ps = pieces(a, class);
    lemma_pieces_nonempty(a, class);
    if b.len() == 0 {
        assert(whole.drop_last() == a);
        assert(b == Seq::<char>::empty());
    } else {
        let t = b.drop_last();
        assert forall|i: int| 0 <= i < t.len() implies !class.has(#[trigger] t[i]) by {
            assert(t[i] == b[i]);
        }
        lemma_pieces_join(a, sep, t, class);
        assert(whole.drop_last() == a + seq![sep] + t);
        assert(whole.last() == b[b.len() - 1]);
        assert(t.push(b.last()) == b);
        assert(ps.push(t).update(ps.len() as int, b) == ps.push(b));
    }
}

/// The non-empty ones among some pieces, in order.
pub open spec fn nonempty(ps: Seq<Seq<char>>) -> Seq<Seq<char>> {
    ps.filter(|p: Seq<char>| p.len() > 0)
}

/// The words of a text: the maximal runs without white space.
pub open spec fn words(s: Seq<char>) -> Seq<Seq<char>> {
    nonempty(pieces(s, CharClass::Whitespace))
}

/// Splits text into its words.
pub fn split_words(s: &Vec<char>) -> (r: Vec<Vec<char>>)
    ensures
        rows(r@) == words(s@),
{
    let all = split(s, &CharClass::Whitespace);
    let ghost ps = rows(all@);
    let ghost keep = |p: Seq<char>| p.len() > 0;
    let mut out: Vec<Vec<char>> = Vec::new();
    let mut i: usize = 0;
    proof {
        assert(ps.take(0) == Seq::<Seq<char>>::empty());
        reveal(Seq::filter);
        assert(rows(out@) == ps.take(0).filter(keep));
    }
    while i < all.len()
        invariant
            i <= all.len(),
            ps == rows(all@),
            keep == (|p: Seq<char>| p.len() > 0),
            rows(out@) == ps.take(i as int).filter(keep),
        decreases all.len() - i,
    {
        let ghost out0 = out@;
        proof {
            reveal(Seq::filter);
            assert(ps.take(i + 1).drop_last() == ps.take(i as int));
            assert(ps.take(i + 1).last() == all@[i as int]@);
        }
        if all[i].len() > 0 {
            let w = copy_chars(&all[i]);
            out.push(w);
            proof {
                assert(rows(out@) == rows(out0).push(w@));
            }
        }
        i += 1;
    }
    proof {
        assert(ps.take(ps.len() as int) == ps);
    }
    out
}

/// A copy of some characters.
pub fn copy_chars(s: &Vec<char>) -> (r: Vec<char>)
    ensures
        r@ == s@,
{
    slice_chars(s, 0, s.len())
}

/// A copy of the characters from position `from` up to position `to`.
pub fn slice_chars(s: &Vec<char>, from: usize, to: usize) -> (r: Vec<char>)
    requires
        from <= to <= s@.len(),
    ensures
        r@ == s@.subrange(from as int, to as int),
{
    let mut v: Vec<char> = Vec::new();
    let mut i: usize = from;
    while i < to
        invariant
            from <= i <= to <= s@.len(),
            v@ == s@.subrange(from as int, i as int),
        decreases to - i,
    {
        v.push(s[i]);
        proof {
            assert(s@.subrange(from as int, i + 1) == s@.subrange(from as int, i as int).push(
                s@[i as int],
            ));
        }
        i += 1;
    }
    v
}

// ---------------------------------------------------------------------------
// Trimming
// ---------------------------------------------------------------------------
/// The text without its leading characters of `class`.
pub open spec fn trim_start(s: Seq<char>, class: CharClass) -> Seq<char>
    decreases s.len(),
{
    if s.len() > 0 && class.has(s.first()) {
        trim_start(s.drop_first(), class)
    } else {
        s
    }
}

/// The text without its trailing characters of `class`.
pub open spec fn trim_end(s: Seq<char>, class: CharClass) -> Seq<char>
    decreases s.len(),
{
    if s.len() > 0 && class.has(s.last()) {
        trim_end(s.drop_last(), class)
    } else {
        s
    }
}

/// The text without leading and trailing characters of `class`.
pub open spec fn trim(s: Seq<char>, class: CharClass) -> Seq<char> {
    trim_end(trim_start(s, class), class)
}

/// Trimming removes padding and stops at the first and last other character.
pub proof fn lemma_trim_padded(front: Seq<char>, s: Seq<char>, back: Seq<char>, class: CharClass)
    requires
        forall|i: int| 0 <= i < front.len() ==> class.has(#[trigger] front[i]),
        forall|i: int| 0 <= i < back.len() ==> class.has(#[trigger] back[i]),
        s.len() > 0,
        !class.has(s.first()),
        !class.has(s.last()),
    ensures
        trim(front + s + back, class) == s,
    decreases front.len() + back.len(),
{
    let whole = front + s + back;
    if front.len() > 0 {
        let rest = front.drop_first();
        assert(whole.first() == front[0]);
        assert(whole.drop_first() == rest + s + back);
        assert forall|i: int| 0 <= i < rest.len() implies class.has(#[trigger] rest[i]) by {
            assert(rest[i] == front[i + 1]);
        }
        lemma_trim_padded(rest, s, back, class);
    } else {
        assert(whole == s + back);
        assert(whole.first() == s.first());
        assert(trim_start(whole, class) == whole);
        if back.len() > 0 {
            let rest = back.drop_last();
            assert(whole.last() == back[back.len() - 1]);
            assert(whole.drop_last() == front + s + rest);
            assert forall|i: int| 0 <= i < rest.len() implies class.has(#[trigger] rest[i]) by {
                assert(rest[i] == back[i]);
            }
            lemma_trim_padded(front, s, rest, class);
            assert((front + s + rest).first() == s.first());
            assert(trim_start(front + s + rest, class) == front + s + rest);
        } else {
            assert(whole == s);
        }
    }
}

/// Removes the leading characters of `class`.
pub fn trim_start_of(s: &Vec<char>, class: &CharClass) -> (r: Vec<char>)
    ensures
        r@ == trim_start(s@, *class),
{
    let mut i: usize = 0;
    proof {
        assert(s@.skip(0) == s@);
    }
    while i < s.len() && class.contains(s[i])
        invariant
            i <= s.len(),
            trim_start(s@, *class) == trim_start(s@.skip(i as int), *class),
        decreases s.len() - i,
    {
        proof {
            assert(s@.skip(i as int).first() == s@[i as int]);
            assert(s@.skip(i as int).drop_first() == s@.skip(i + 1));
        }
        i += 1;
    }
    proof {
        if i < s.len() {
            assert(s@.skip(i as int).first() == s@[i as int]);
        }
        assert(s@.subrange(i as int, s@.len() as int) == s@.skip(i as int));
    }
    slice_chars(s, i, s.len())
}

/// Removes the trailing characters of `class`.
pub fn trim_end_of(s: &Vec<char>, class: &CharClass) -> (r: Vec<char>)
    ensures
        r@ == trim_end(s@, *class),
{
    let mut n: usize = s.len();
    proof {
        assert(s@.take(n as int) == s@);
    }
    while n > 0 && class.contains(s[n - 1])
        invariant
            n <= s.len(),
            trim_end(s@, *class) == trim_end(s@.take(n as int), *class),
        decreases n,
    {
        proof {
            assert(s@.take(n as int).last() == s@[n - 1]);
            assert(s@.take(n as int).drop_last() == s@.take(n - 1));
        }
        n -= 1;
    }
    proof {
        if n > 0 {
            assert(s@.take(n as int).last() == s@[n - 1]);
        }
        assert(s@.subrange(0, n as int) == s@.take(n as int));
    }
    slice_chars(s, 0, n)
}

/// Removes the leading and trailing characters of `class`.
pub fn trim_of(s: &Vec<char>, class: &CharClass) -> (r: Vec<char>)
    ensures
        r@ == trim(s@, *class),
{
    let t = trim_start_of(s, class);
    trim_end_of(&t, class)
}

// ---------------------------------------------------------------------------
// Case folding and searching
// ---------------------------------------------------------------------------
/// The ASCII lower-case form of a character; others stay as they are.
pub open spec fn lower_char(c: char) -> char {
    if 'A' <= c && c <= 'Z' {
        (c as u8 + 32) as char
    } else {
        c
    }
}

/// The text with its ASCII capitals lowered.
pub open spec fn lower(s: Seq<char>) -> Seq<char> {
    s.map_values(|c: char| lower_char(c))
}

/// Lowers one ASCII capital.
pub fn to_lower_char(c: char) -> (r: char)
    ensures
        r == lower_char(c),
{
    if 'A' <= c && c <= 'Z' {
        (c as u8 + 32) as char
    } else {
        c
    }
}

/// Lowers the ASCII capitals of a text.
pub fn to_lower(s: &str) -> (r: String)
    ensures
        r@ == lower(s@),
{
    let cs = chars_of(s);
    let mut out = String::new();
    let mut i: usize = 0;
    while i < cs.len()
        invariant
            i <= cs.len(),
            cs@ == s@,
            out@ == lower(cs@.take(i as int)),
        decreases cs.len() - i,
    {
        out.push(to_lower_char(cs[i]));
        proof {
            assert(lower(cs@.take(i + 1)) == lower(cs@.take(i as int)).push(
                lower_char(cs@[i as int]),
            ));
        }
        i += 1;
    }
    proof {
        assert(cs@.take(cs@.len() as int) == cs@);
    }
    out
}

/// Equality of two texts up to the case of ASCII letters.
pub fn same_ignoring_case(a: &str, b: &str) -> (r: bool)
    ensures
        r == (lower(a@) == lower(b@)),
{
    let x = to_lower(a);
    let y = to_lower(b);
    x == y
}

/// `needle` occurs in `s` at position `at`.
pub open spec fn occurs_at(s: Seq<char>, needle: Seq<char>, at: int) -> bool {
    0 <= at && at + needle.len() <= s.len() && s.subrange(at, at + needle.len()) == needle
}

/// `needle` occurs somewhere in `s`.
pub open spec fn occurs(s: Seq<char>, needle: Seq<char>) -> bool {
    exists|at: int| occurs_at(s, needle, at)
}

/// Tells whether `needle` stands in `s` at position `at`.
fn stands_at(s: &Vec<char>, needle: &Vec<char>, at: usize) -> (r: bool)
    requires
        at + needle@.len() <= s@.len(),
    ensures
        r == occurs_at(s@, needle@, at as int),
{
    let n: usize = s.len();
    let mut i: usize = 0;
    while i < needle.len()
        invariant
            i <= needle.len(),
            n == s@.len(),
            at + needle@.len() <= n,
            forall|k: int| 0 <= k < i ==> s@[at + k] == needle@[k],
        decreases needle.len() - i,
    {
        if s[at + i] != needle[i] {
            proof {
                assert(s@.subrange(at as int, at + needle@.len())[i as int] != needle@[i as int]);
            }
            return false;
        }
        i += 1;
    }
    proof {
        assert(s@.subrange(at as int, at + needle@.len()) == needle@);
    }
    true
}

/// The first position at which `needle` stands in `s`, if any.
pub fn find_text(s: &Vec<char>, needle: &Vec<char>) -> (r: Option<usize>)
    ensures
        match r {
            Some(at) => occurs_at(s@, needle@, at as int) && forall|k: int|
                0 <= k < at ==> !occurs_at(s@, needle@, k),
            None => !occurs(s@, needle@),
        },
{
    if needle.len() > s.len() {
        return None;
    }
    let last: usize = s.len() - needle.len();
    let mut at: usize = 0;
    loop
        invariant
            at <= last,
            last + needle@.len() == s@.len(),
            forall|k: int| 0 <= k < at ==> !occurs_at(s@, needle@, k),
        decreases last - at,
    {
        if stands_at(s, needle, at) {
            return Some(at);
        }
        if at == last {
            return None;
        }
        at += 1;
    }
}

/// Tells whether `needle` occurs in `s`.
pub fn contains_text(s: &str, needle: &str) -> (r: bool)
    ensures
        r == occurs(s@, needle@),
{
    let a = chars_of(s);
    let b = chars_of(needle);
    find_text(&a, &b).is_some()
}

// ---------------------------------------------------------------------------
// Numbers
// ---------------------------------------------------------------------------
/// The decimal digit of a number below ten.
pub open spec fn digit_char(d: int) -> char {
    (48 + d) as u8 as char
}

/// A number in decimal notation, without leading zeros.
pub open spec fn decimal(n: nat) -> Seq<char>
    decreases n,
{
    if n < 10 {
        seq![digit_char(n as int)]
    } else {
        decimal(n / 10).push(digit_char((n % 10) as int))
    }
}

/// Writes a number in decimal notation.
pub fn write_decimal(n: u64) -> (r: String)
    ensures
        r@ == decimal(n as nat),
    decreases n,
{
    let mut s = if n < 10 {
        String::new()
    } else {
        write_decimal(n / 10)
    };
    s.push((48u8 + (n % 10) as u8) as char);
    proof {
        assert(s@ == decimal(n as nat));
    }
    s
}

/// A character is an ASCII decimal digit.
pub open spec fn is_digit(c: char) -> bool {
    '0' <= c && c <= '9'
}

/// Every character is an ASCII decimal digit.
pub open spec fn all_digits(s: Seq<char>) -> bool {
    forall|i: int| 0 <= i < s.len() ==> is_digit(#[trigger] s[i])
}

/// The number that decimal digits stand for.
pub open spec fn digits_value(s: Seq<char>) -> nat
    decreases s.len(),
{
    if s.len() == 0 {
        0
    } else {
        (10 * digits_value(s.drop_last()) + (s.last() as u32 - 48)) as nat
    }
}

/// Decimal notation consists of digits, has the value of the number and no
/// leading zero but for zero itself.
pub proof fn lemma_decimal(n: nat)
    ensures
        decimal(n).len() >= 1,
        all_digits(decimal(n)),
        digits_value(decimal(n)) == n,
        decimal(n).len() > 1 ==> decimal(n)[0] != '0',
        n > 0 ==> decimal(n)[0] != '0',
    decreases n,
{
    if n < 10 {
        let s = decimal(n);
        assert(s.drop_last() == Seq::<char>::empty());
        assert(digits_value(s.drop_last()) == 0);
    } else {
        lemma_decimal(n / 10);
        let t = decimal(n / 10);
        let s = decimal(n);
        assert(s.drop_last() == t);
        assert(s[0] == t[0]);
        assert forall|i: int| 0 <= i < s.len() implies is_digit(#[trigger] s[i]) by {
            if i < t.len() {
                assert(is_digit(t[i]));
            }
        }
    }
}

/// The value of a hexadecimal digit.
pub open spec fn hex_value(c: char) -> Option<nat> {
    if '0' <= c && c <= '9' {
        Some((c as u32 - 48) as nat)
    } else if 'a' <= c && c <= 'f' {
        Some((c as u32 - 87) as nat)
    } else if 'A' <= c && c <= 'F' {
        Some((c as u32 - 55) as nat)
    } else {
        None
    }
}

/// Reads a hexadecimal digit.
pub fn read_hex_digit(c: char) -> (r: Option<u8>)
    ensures
        match r {
            Some(v) => hex_value(c) == Some(v as nat) && v < 16,
            None => hex_value(c) is None,
        },
{
    if '0' <= c && c <= '9' {
        Some(c as u8 - 48)
    } else if 'a' <= c && c <= 'f' {
        Some(c as u8 - 87)
    } else if 'A' <= c && c <= 'F' {
        Some(c as u8 - 55)
    } else {
        None
    }
}

/// More digits make no smaller number.
proof fn lemma_digits_grow(s: Seq<char>, i: int)
    requires
        0 <= i <= s.len(),
        all_digits(s),
    ensures
        digits_value(s.take(i)) <= digits_value(s),
    decreases s.len() - i,
{
    if i < s.len() {
        assert(s.take(i + 1).drop_last() == s.take(i));
        assert(s.take(i + 1).last() == s[i]);
        lemma_digits_grow(s, i + 1);
    } else {
        assert(s.take(i) == s);
    }
}

/// The value of a non-empty run of decimal digits that is at most `max`.
pub open spec fn number_upto(s: Seq<char>, max: nat) -> Option<nat> {
    if s.len() > 0 && all_digits(s) && digits_value(s) <= max {
        Some(digits_value(s))
    } else {
        None
    }
}

/// Reads a non-empty run of decimal digits with a value of at most `max`.
pub fn read_number(s: &Vec<char>, max: u32) -> (r: Option<u32>)
    ensures
        match r {
            Some(v) => number_upto(s@, max as nat) == Some(v as nat) && v <= max,
            None => number_upto(s@, max as nat) is None,
        },
{
    if s.len() == 0 {
        return None;
    }
    let mut total: u64 = 0;
    let mut i: usize = 0;
    while i < s.len()
        invariant
            i <= s.len(),
            total == digits_value(s@.take(i as int)),
            total <= max,
            forall|k: int| 0 <= k < i ==> is_digit(#[trigger] s@[k]),
        decreases s.len() - i,
    {
        let c = s[i];
        if !('0' <= c && c <= '9') {
            proof {
                assert(!is_digit(s@[i as int]));
            }
            return None;
        }
        proof {
            assert(s@.take(i + 1).drop_last() == s@.take(i as int));
            assert(s@.take(i + 1).last() == c);
        }
        total = total * 10 + (c as u8 - 48) as u64;
        if total > max as u64 {
            proof {
                if all_digits(s@) {
                    lemma_digits_grow(s@, i + 1);
                }
            }
            return None;
        }
        i += 1;
    }
    proof {
        assert(s@.take(s@.len() as int) == s@);
    }
    Some(total as u32)
}

// ---------------------------------------------------------------------------
// Composition
// ---------------------------------------------------------------------------
/// The decimal digits of an integer, after a minus sign where it is negative.
pub open spec fn signed_decimal(n: int) -> Seq<char> {
    if n < 0 {
        "-"@ + decimal((-n) as nat)
    } else {
        decimal(n as nat)
    }
}

/// Writes an integer in decimal.
pub fn write_signed(n: i32) -> (r: String)
    ensures
        r@ == signed_decimal(n as int),
{
    if n < 0 {
        join2("-", write_decimal((-(n as i64)) as u64).as_str())
    } else {
        write_decimal(n as u64)
    }
}

/// Two texts one after the other.
pub fn join2(a: &str, b: &str) -> (r: String)
    ensures
        r@ == a@ + b@,
{
    let mut s = a.to_owned();
    s.append(b);
    s
}

/// Three texts one after the other.
pub fn join3(a: &str, b: &str, c: &str) -> (r: String)
    ensures
        r@ == a@ + b@ + c@,
{
    let mut s = join2(a, b);
    s.append(c);
    s
}

/// Four texts one after the other.
pub fn join4(a: &str, b: &str, c: &str, d: &str) -> (r: String)
    ensures
        r@ == a@ + b@ + c@ + d@,
{
    let mut s = join3(a, b, c);
    s.append(d);
    s
}

/// Five texts one after the other.
pub fn join5(a: &str, b: &str, c: &str, d: &str, e: &str) -> (r: String)
    ensures
        r@ == a@ + b@ + c@ + d@ + e@,
{
    let mut s = join4(a, b, c, d);
    s.append(e);
    s
}

// ---------------------------------------------------------------------------
// Laws
// ---------------------------------------------------------------------------
/// Two characters are the same, or one is the ASCII capital of the other.
pub open spec fn same_letter(a: char, b: char) -> bool {
    ||| a == b
    ||| 'A' <= a && a <= 'Z' && b as int == a as int + 32
    ||| 'A' <= b && b <= 'Z' && a as int == b as int + 32
}

/// Lowering decides exactly whether two texts differ in more than the case of
/// ASCII letters, and lowered text stays as it is.
pub proof fn lowering_forgets_only_case(a: Seq<char>, b: Seq<char>)
    ensures
        lower(a) == lower(b) <==> a.len() == b.len() && forall|i: int|
            0 <= i < a.len() ==> same_letter(#[trigger] a[i], b[i]),
        lower(lower(a)) == lower(a),
        (forall|i: int| 0 <= i < a.len() ==> !('A' <= #[trigger] a[i] && a[i] <= 'Z')) ==> lower(a)
            == a,
{
    if lower(a) == lower(b) {
        assert(lower(a).len() == a.len() && lower(b).len() == b.len());
        assert forall|i: int| 0 <= i < a.len() implies same_letter(#[trigger] a[i], b[i]) by {
            assert(lower(a)[i] == lower_char(a[i]));
            assert(lower(b)[i] == lower_char(b[i]));
        }
    }
    if a.len() == b.len() && forall|i: int|
        0 <= i < a.len() ==> same_letter(#[trigger] a[i], b[i]) {
        assert forall|i: int| 0 <= i < a.len() implies lower(a)[i] == lower(b)[i] by {
            assert(same_letter(a[i], b[i]));
        }
        assert(lower(a) == lower(b));
    }
    assert(lower(lower(a)) == lower(a));
    if forall|i: int| 0 <= i < a.len() ==> !('A' <= #[trigger] a[i] && a[i] <= 'Z') {
        assert(lower(a) == a);
    }
}

/// Trimming takes away characters of the class at both ends, all of them, and
/// nothing else.
pub proof fn trimming_takes_the_ends(s: Seq<char>, class: CharClass) -> (cut: (int, int))
    ensures
        0 <= cut.0 <= cut.1 <= s.len(),
        trim(s, class) == s.subrange(cut.0, cut.1),
        forall|i: int| 0 <= i < cut.0 || cut.1 <= i < s.len() ==> class.has(#[trigger] s[i]),
        cut.0 < cut.1 ==> !class.has(s[cut.0]) && !class.has(s[cut.1 - 1]),
        trim_start(s, class) == s.skip(cut.0) || cut.0 == cut.1,
{
    let t = trim_start(s, class);
    let a = lemma_trim_start(s, class);
    let b = lemma_trim_end(t, class);
    assert(s.skip(a).take(b) == s.subrange(a, a + b));
    assert forall|i: int| 0 <= i < a || a + b <= i < s.len() implies class.has(
        #[trigger] s[i],
    ) by {
        if i >= a + b {
            assert(t[i - a] == s[i]);
        }
    }
    if b > 0 {
        assert(t[0] == s[a] && t[b - 1] == s[a + b - 1]);
    }
    (a, a + b)
}

/// Where the text begins once its start is trimmed.
pub proof fn lemma_trim_start(s: Seq<char>, class: CharClass) -> (n: int)
    ensures
        0 <= n <= s.len(),
        trim_start(s, class) == s.skip(n),
        forall|i: int| 0 <= i < n ==> class.has(#[trigger] s[i]),
        n < s.len() ==> !class.has(s[n]),
    decreases s.len(),
{
    if s.len() > 0 && class.has(s.first()) {
        let rest = s.drop_first();
        let n = lemma_trim_start(rest, class);
        assert(rest.skip(n) == s.skip(n + 1));
        assert forall|i: int| 0 <= i < n + 1 implies class.has(#[trigger] s[i]) by {
            if i > 0 {
                assert(rest[i - 1] == s[i]);
            }
        }
        n + 1
    } else {
        assert(s.skip(0) == s);
        0
    }
}

/// Where the text ends once its end is trimmed.
pub proof fn lemma_trim_end(s: Seq<char>, class: CharClass) -> (n: int)
    ensures
        0 <= n <= s.len(),
        trim_end(s, class) == s.take(n),
        forall|i: int| n <= i < s.len() ==> class.has(#[trigger] s[i]),
        n > 0 ==> !class.has(s[n - 1]),
    decreases s.len(),
{
    if s.len() > 0 && class.has(s.last()) {
        let rest = s.drop_last();
        let n = lemma_trim_end(rest, class);
        assert(rest.take(n) == s.take(n));
        assert forall|i: int| n <= i < s.len() implies class.has(#[trigger] s[i]) by {
            if i < rest.len() {
                assert(rest[i] == s[i]);
            }
        }
        n
    } else {
        assert(s.take(s.len() as int) == s);
        s.len() as int
    }
}

/// Pieces with a separator between them.
pub open spec fn joined(ps: Seq<Seq<char>>, sep: char) -> Seq<char>
    decreases ps.len(),
{
    if ps.len() == 0 {
        Seq::empty()
    } else if ps.len() == 1 {
        ps[0]
    } else {
        joined(ps.drop_last(), sep) + seq![sep] + ps.last()
    }
}

/// Splitting at a character undoes joining with it: the pieces hold no
/// separator, and joined they are the text again.
pub proof fn splitting_undoes_joining(s: Seq<char>, sep: char)
    ensures
        pieces(s, CharClass::Only(sep)).len() >= 1,
        joined(pieces(s, CharClass::Only(sep)), sep) == s,
        forall|i: int, k: int|
            0 <= i < pieces(s, CharClass::Only(sep)).len() && 0 <= k < pieces(
                s,
                CharClass::Only(sep),
            )[i].len() ==> #[trigger] pieces(s, CharClass::Only(sep))[i][k] != sep,
    decreases s.len(),
{
    let class = CharClass::Only(sep);
    let ps = pieces(s, class);
    if s.len() == 0 {
        assert(joined(ps, sep) == s);
    } else {
        let front = s.drop_last();
        let before = pieces(front, class);
        splitting_undoes_joining(front, sep);
        if s.last() == sep {
            assert(ps.drop_last() == before);
            assert(joined(ps, sep) == front + seq![sep] + Seq::<char>::empty());
            assert(joined(ps, sep) == s);
        } else {
            let n = before.len() - 1;
            let longer = before.last().push(s.last());
            assert(ps.drop_last() == before.drop_last());
            assert(ps.last() == longer);
            if n == 0 {
                assert(joined(before, sep) == before[0]);
                assert(joined(ps, sep) == ps[0]);
                assert(front.push(s.last()) == s);
            } else {
                assert(joined(ps, sep) == joined(before.drop_last(), sep) + seq![sep] + longer);
                assert(front == joined(before.drop_last(), sep) + seq![sep] + before.last());
                assert(joined(before.drop_last(), sep) + seq![sep] + longer == front.push(
                    s.last(),
                ));
                assert(front.push(s.last()) == s);
            }
            assert forall|i: int, k: int|
                0 <= i < ps.len() && 0 <= k < ps[i].len() implies #[trigger] ps[i][k] != sep by {
                if i < n {
                    assert(ps[i] == before[i]);
                    assert(before[i][k] != sep);
                } else if k < before[n].len() {
                    assert(before[n][k] != sep);
                }
            }
        }
    }
}

/// Joined pieces without a separator in them are split into those pieces.
pub proof fn joining_is_undone_by_splitting(ps: Seq<Seq<char>>, sep: char)
    requires
        ps.len() >= 1,
        forall|i: int, k: int|
            0 <= i < ps.len() && 0 <= k < ps[i].len() ==> #[trigger] ps[i][k] != sep,
    ensures
        pieces(joined(ps, sep), CharClass::Only(sep)) == ps,
    decreases ps.len(),
{
    let class = CharClass::Only(sep);
    let last = ps[ps.len() - 1];
    assert forall|k: int| 0 <= k < last.len() implies !class.has(#[trigger] last[k]) by {
        assert(ps[ps.len() - 1][k] != sep);
    }
    if ps.len() == 1 {
        lemma_pieces_whole(last, class);
        assert(seq![last] == ps);
    } else {
        let front = ps.drop_last();
        assert forall|i: int, k: int|
            0 <= i < front.len() && 0 <= k < front[i].len() implies #[trigger] front[i][k]
            != sep by {
            assert(ps[i][k] != sep);
        }
        joining_is_undone_by_splitting(front, sep);
        lemma_pieces_join(joined(front, sep), sep, last, class);
        assert(front.push(last) == ps);
    }
}

/// Text around a separator is split on each side of it.
pub proof fn lemma_pieces_add(x: Seq<char>, c: char, y: Seq<char>, class: CharClass)
    requires
        class.has(c),
    ensures
        pieces(x + seq![c] + y, class) == pieces(x, class) + pieces(y, class),
    decreases y.len(),
{
    let whole = x + seq![c] + y;
    let px = pieces(x, class);
    let py = pieces(y, class);
    lemma_pieces_nonempty(x, class);
    lemma_pieces_nonempty(y, class);
    if y.len() == 0 {
        assert(whole.drop_last() == x);
        assert(px.push(Seq::<char>::empty()) == px + py);
    } else {
        let t = y.drop_last();
        let pt = pieces(t, class);
        lemma_pieces_nonempty(t, class);
        lemma_pieces_add(x, c, t, class);
        assert(whole.drop_last() == x + seq![c] + t);
        assert(whole.last() == y.last());
        if class.has(y.last()) {
            assert((px + pt).push(Seq::<char>::empty()) == px + py);
        } else {
            let n = (px + pt).len() - 1;
            let longer = pt.last().push(y.last());
            assert((px + pt).last() == pt.last());
            assert((px + pt).update(n, longer) == px + pt.update(pt.len() - 1, longer));
        }
    }
}

/// The non-empty pieces of two lists are those of the one and of the other.
proof fn lemma_nonempty_add(a: Seq<Seq<char>>, b: Seq<Seq<char>>)
    ensures
        nonempty(a + b) == nonempty(a) + nonempty(b),
    decreases b.len(),
{
    reveal(Seq::filter);
    if b.len() == 0 {
        assert(a + b == a);
        assert(nonempty(a) + nonempty(b) == nonempty(a));
    } else {
        lemma_nonempty_add(a, b.drop_last());
        assert((a + b).drop_last() == a + b.drop_last());
        assert((a + b).last() == b.last());
        assert(nonempty(a + b) == nonempty(a) + nonempty(b));
    }
}

/// White space: a space, a tab, a line end, or one of the wider spaces and line
/// ends of Unicode.
pub open spec fn is_blank(c: char) -> bool {
    ||| c == ' ' || c == '\t' || c == '\n' || c == '\u{b}' || c == '\u{c}' || c == '\r'
    ||| c == '\u{85}' || c == '\u{a0}' || c == '\u{1680}'
    ||| '\u{2000}' <= c <= '\u{200a}'
    ||| c == '\u{2028}' || c == '\u{2029}' || c == '\u{202f}' || c == '\u{205f}' || c
        == '\u{3000}'
}

/// White space is what the class of white space has.
pub proof fn white_space_is_blank(c: char, r: bool)
    requires
        call_ensures(CharClass::contains, (&CharClass::Whitespace, c), r),
    ensures
        r <==> is_blank(c),
{
}

/// The class of white space has what is blank.
pub proof fn lemma_blank(c: char)
    ensures
        CharClass::Whitespace.has(c) <==> is_blank(c),
{
}

/// A word: not empty, and without white space.
pub open spec fn is_word(w: Seq<char>) -> bool {
    w.len() > 0 && forall|i: int| 0 <= i < w.len() ==> !is_blank(#[trigger] w[i])
}

/// Some blanks, at least one.
pub open spec fn is_gap(g: Seq<char>) -> bool {
    g.len() > 0 && forall|i: int| 0 <= i < g.len() ==> is_blank(#[trigger] g[i])
}

/// Blanks before text add no word to it.
pub proof fn blanks_before_text_add_no_word(g: Seq<char>, rest: Seq<char>)
    requires
        forall|i: int| 0 <= i < g.len() ==> is_blank(#[trigger] g[i]),
    ensures
        words(g + rest) == words(rest),
    decreases g.len(),
{
    let none = Seq::<char>::empty();
    if g.len() == 0 {
        assert(g + rest == rest);
    } else {
        let more = g.drop_first();
        assert forall|i: int| 0 <= i < more.len() implies is_blank(#[trigger] more[i]) by {
            assert(more[i] == g[i + 1]);
        }
        blanks_before_text_add_no_word(more, rest);
        assert(is_blank(g[0]));
        assert(g + rest == none + seq![g[0]] + (more + rest));
        lemma_pieces_add(none, g[0], more + rest, CharClass::Whitespace);
        lemma_nonempty_add(pieces(none, CharClass::Whitespace), pieces(
            more + rest,
            CharClass::Whitespace,
        ));
        reveal(Seq::filter);
        reveal_with_fuel(Seq::filter, 2);
        assert(pieces(none, CharClass::Whitespace).drop_last() == Seq::<Seq<char>>::empty());
        assert(nonempty(pieces(none, CharClass::Whitespace)) == Seq::<Seq<char>>::empty());
        assert(words(g + rest) == words(rest));
    }
}

/// A word and blanks before text add that word to its words, and a word alone
/// is its only word.
pub proof fn word_before_text_is_its_first_word(w: Seq<char>, g: Seq<char>, rest: Seq<char>)
    requires
        is_word(w),
        is_gap(g),
    ensures
        words(w) == seq![w],
        words(w + g + rest) == seq![w] + words(rest),
{
    let class = CharClass::Whitespace;
    assert forall|i: int| 0 <= i < w.len() implies !class.has(#[trigger] w[i]) by {
        assert(!is_blank(w[i]));
        lemma_blank(w[i]);
    }
    lemma_pieces_whole(w, class);
    reveal(Seq::filter);
    reveal_with_fuel(Seq::filter, 2);
    assert(seq![w].drop_last() == Seq::<Seq<char>>::empty());
    assert(nonempty(seq![w]) == seq![w]);
    let more = g.drop_first();
    assert(is_blank(g[0]));
    assert forall|i: int| 0 <= i < more.len() implies is_blank(#[trigger] more[i]) by {
        assert(more[i] == g[i + 1]);
    }
    assert(w + g + rest == w + seq![g[0]] + (more + rest));
    lemma_pieces_add(w, g[0], more + rest, class);
    lemma_nonempty_add(pieces(w, class), pieces(more + rest, class));
    blanks_before_text_add_no_word(more, rest);
}

/// A number in decimal has one digit if it is below ten, and else the digits of
/// its tenth part before its last digit.
pub proof fn decimal_digit_by_digit(n: nat, d: nat)
    requires
        d < 10,
    ensures
        decimal(d) == seq!["0123456789"@[d as int]],
        n > 0 ==> decimal(10 * n + d) == decimal(n) + decimal(d),
{
    reveal_strlit("0123456789");
    assert(decimal(d) == seq!["0123456789"@[d as int]]);
    if n > 0 {
        assert((10 * n + d) / 10 == n && (10 * n + d) % 10 == d);
        assert(decimal(10 * n + d) == decimal(n) + decimal(d));
    }
}

/// A search finds a text exactly where something stands before it and something
/// after it.
pub proof fn search_finds_what_is_there(before: Seq<char>, needle: Seq<char>, after: Seq<char>)
    ensures
        occurs(before + needle + after, needle),
{
    let s = before + needle + after;
    let at = before.len() as int;
    assert(s.subrange(at, at + needle.len()) == needle);
    assert(occurs_at(s, needle, at));
}

/// What a search finds is there.
pub proof fn search_finds_nothing_else(s: Seq<char>, needle: Seq<char>) -> (at: int)
    requires
        occurs(s, needle),
    ensures
        0 <= at,
        at + needle.len() <= s.len(),
        forall|i: int| 0 <= i < needle.len() ==> s[at + i] == #[trigger] needle[i],
{
    let at = choose|at: int| occurs_at(s, needle, at);
    assert forall|i: int| 0 <= i < needle.len() implies s[at + i] == #[trigger] needle[i] by {
        assert(s.subrange(at, at + needle.len())[i] == s[at + i]);
    }
    at
}

/// Digits stand for ten times what they stand for without the last one, and the
/// last one; none stand for zero.
pub proof fn digits_count_in_tens(s: Seq<char>, d: nat)
    requires
        d < 10,
    ensures
        digits_value(Seq::<char>::empty()) == 0,
        digits_value(s.push("0123456789"@[d as int])) == 10 * digits_value(s) + d,
{
    reveal_strlit("0123456789");
    assert(s.push("0123456789"@[d as int]).drop_last() == s);
}

/// A character whose encoding starts with a byte below 128 is below 128.
proof fn lemma_low_lead(c: char)
    requires
        vstd::utf8::encode_scalar(c as u32)[0] < 128,
    ensures
        '\0' <= c <= '\u{7f}',
{
    assert(forall|x: u8| #[trigger] (0xC0u8 | x) >= 0xC0u8) by (bit_vector);
    assert(forall|x: u8| #[trigger] (0xE0u8 | x) >= 0xE0u8) by (bit_vector);
    assert(forall|x: u8| #[trigger] (0xF0u8 | x) >= 0xF0u8) by (bit_vector);
    assert(vstd::utf8::has_width_1_encoding(c as u32));
}

/// Text whose encoding has only bytes below 128 has only such characters.
pub proof fn lemma_low_bytes(s: Seq<char>)
    requires
        forall|i: int|
            0 <= i < vstd::utf8::encode_utf8(s).len() ==> #[trigger] vstd::utf8::encode_utf8(s)[i]
                < 128,
    ensures
        vstd::utf8::is_ascii_chars(s),
    decreases s.len(),
{
    if s.len() > 0 {
        let whole = vstd::utf8::encode_utf8(s);
        let first = vstd::utf8::encode_scalar(s[0] as u32);
        let rest = s.drop_first();
        let tail = vstd::utf8::encode_utf8(rest);
        assert(whole == first + tail);
        assert(whole[0] == first[0]);
        lemma_low_lead(s[0]);
        assert forall|i: int| 0 <= i < tail.len() implies #[trigger] tail[i] < 128 by {
            assert(whole[first.len() + i] == tail[i]);
        }
        lemma_low_bytes(rest);
        assert forall|i: int| 0 <= i < s.len() implies '\0' <= #[trigger] s[i] <= '\u{7f}' by {
            if i > 0 {
                assert(rest[i - 1] == s[i]);
            }
        }
    }
}

} // verus!
