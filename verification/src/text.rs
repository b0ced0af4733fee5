//! Text: the handling of environment values, command output and API fields.
//!
//! Texts are modelled as sequences of characters.

use vstd::prelude::*;

verus! {

// ── Models ───────────────────────────────────────────────────────────────────

/// The Unicode property `White_Space`.
pub open spec fn is_white_space(c: char) -> bool {
    let n = c as u32;
    ||| 0x09 <= n <= 0x0d
    ||| n == 0x20
    ||| n == 0x85
    ||| n == 0xa0
    ||| n == 0x1680
    ||| 0x2000 <= n <= 0x200a
    ||| n == 0x2028
    ||| n == 0x2029
    ||| n == 0x202f
    ||| n == 0x205f
    ||| n == 0x3000
}

/// A character of the base58 alphabet: a letter or a digit, but not `0`, `O`, `I` or `l`.
pub open spec fn is_base58_char(c: char) -> bool {
    ||| '1' <= c <= '9'
    ||| 'A' <= c <= 'Z' && c != 'I' && c != 'O'
    ||| 'a' <= c <= 'z' && c != 'l'
}

/// A text, not empty, of base58 characters.
pub open spec fn is_base58(s: Seq<char>) -> bool {
    &&& s.len() > 0
    &&& forall|i: int| 0 <= i < s.len() ==> is_base58_char(#[trigger] s[i])
}

/// `needle` occurs in `hay` as one piece.
pub open spec fn contains_text(hay: Seq<char>, needle: Seq<char>) -> bool {
    exists|i: int| occurs_at(hay, needle, i)
}

/// `needle` stands in `hay` from position `i` on.
pub open spec fn occurs_at(hay: Seq<char>, needle: Seq<char>, i: int) -> bool {
    0 <= i <= hay.len() - needle.len() && hay.subrange(i, i + needle.len()) == needle
}

/// `s` without the white space at its start.
pub open spec fn trim_start(s: Seq<char>) -> Seq<char>
    decreases s.len(),
{
    if s.len() > 0 && is_white_space(s[0]) {
        trim_start(s.skip(1))
    } else {
        s
    }
}

/// `s` without the white space at its end.
pub open spec fn trim_end(s: Seq<char>) -> Seq<char>
    decreases s.len(),
{
    if s.len() > 0 && is_white_space(s.last()) {
        trim_end(s.drop_last())
    } else {
        s
    }
}

/// `s` without the white space around it.
pub open spec fn trimmed(s: Seq<char>) -> Seq<char> {
    trim_end(trim_start(s))
}

/// `s` without the slashes at its end.
pub open spec fn trim_end_slashes(s: Seq<char>) -> Seq<char>
    decreases s.len(),
{
    if s.len() > 0 && s.last() == '/' {
        trim_end_slashes(s.drop_last())
    } else {
        s
    }
}

/// The pieces of `s` between the occurrences of `sep`: one more than there are occurrences.
pub open spec fn split_on(s: Seq<char>, sep: char) -> Seq<Seq<char>>
    decreases s.len(),
{
    if s.len() == 0 {
        seq![Seq::empty()]
    } else {
        let before = split_on(s.drop_last(), sep);
        if s.last() == sep {
            before.push(Seq::empty())
        } else {
            before.drop_last().push(before.last().push(s.last()))
        }
    }
}

/// The pieces, one after the other, with `sep` between each two.
pub open spec fn joined(pieces: Seq<Seq<char>>, sep: char) -> Seq<char>
    decreases pieces.len(),
{
    if pieces.len() == 0 {
        Seq::empty()
    } else if pieces.len() == 1 {
        pieces[0]
    } else {
        joined(pieces.drop_last(), sep).push(sep) + pieces.last()
    }
}

/// What follows the last white space of `s`; all of `s` where it has none.
pub open spec fn last_word(s: Seq<char>) -> Seq<char>
    decreases s.len(),
{
    if s.len() == 0 || is_white_space(s.last()) {
        Seq::empty()
    } else {
        last_word(s.drop_last()).push(s.last())
    }
}

/// The decimal digit of a number below ten.
pub open spec fn digit_char(d: nat) -> char {
    (('0' as u32) + d) as char
}

/// A number in decimal, without leading zeros.
pub open spec fn decimal(n: nat) -> Seq<char>
    decreases n,
{
    if n < 10 {
        seq![digit_char(n)]
    } else {
        decimal(n / 10).push(digit_char(n % 10))
    }
}

/// Decimal digits only; the empty text too.
pub open spec fn all_digits(s: Seq<char>) -> bool {
    forall|i: int| 0 <= i < s.len() ==> '0' <= #[trigger] s[i] <= '9'
}

/// The number that a text of decimal digits spells.
pub open spec fn digits_value(s: Seq<char>) -> nat
    decreases s.len(),
{
    if s.len() == 0 {
        0
    } else {
        digits_value(s.drop_last()) * 10 + ((s.last() as u32 - '0' as u32) as nat)
    }
}

/// The digits of a number text: a plus sign in front of them is dropped.
pub open spec fn unsigned_digits(s: Seq<char>) -> Seq<char> {
    if s.len() > 0 && s[0] == '+' {
        s.skip(1)
    } else {
        s
    }
}

/// The `u64` that a text spells: digits, at least one, after an optional plus sign, whose value
/// fits.
pub open spec fn u64_of_text(s: Seq<char>) -> Option<u64> {
    let digits = unsigned_digits(s);
    if digits.len() > 0 && all_digits(digits) && digits_value(digits) <= u64::MAX {
        Some(digits_value(digits) as u64)
    } else {
        None
    }
}

/// The characters that a list of texts holds, one list per text.
pub open spec fn views(texts: Seq<String>) -> Seq<Seq<char>> {
    texts.map_values(|s: String| s@)
}

// ── Functions of std ─────────────────────────────────────────────────────────

/// `String::push` appends the character.
pub assume_specification[ String::push ](s: &mut String, c: char)
    ensures
        final(s)@ == old(s)@.push(c),
;

/// `char::is_whitespace` tells whether the character has the Unicode property `White_Space`.
pub assume_specification[ char::is_whitespace ](c: char) -> (white: bool)
    ensures
        white == is_white_space(c),
;

/// What the error of `str::parse::<u64>` says of a text; nothing where the text is a number.
pub uninterp spec fn u64_error_of(text: Seq<char>) -> Seq<char>;

/// `str::parse::<u64>`: the wording of its error, which depends on the text alone; an empty text
/// where there is no error. Nothing is claimed of which texts are numbers, nor of the wording.
#[verifier::external_body]
pub(crate) fn u64_error(text: &str) -> (error: String)
    ensures
        error@ == u64_error_of(text@),
{
    match text.parse::<u64>() {
        Ok(_) => String::new(),
        Err(e) => e.to_string(),
    }
}

// ── Between texts and lists of characters ────────────────────────────────────

/// The characters of a text.
pub fn chars_of(s: &str) -> (r: Vec<char>)
    ensures
        r@ == s@,
{
    let mut r: Vec<char> = Vec::new();
    for c in it: s.chars()
        invariant
            r@ == it.seq().take(it.index() as int),
    {
        r.push(c);
    }
    r
}

/// The text that the characters from `from` to `to` make.
pub fn string_of(chars: &Vec<char>, from: usize, to: usize) -> (s: String)
    requires
        from <= to <= chars@.len(),
    ensures
        s@ == chars@.subrange(from as int, to as int),
{
    let mut s = String::new();
    let mut i: usize = from;
    while i < to
        invariant
            from <= i <= to <= chars@.len(),
            s@ == chars@.subrange(from as int, i as int),
        decreases to - i,
    {
        s.push(chars[i]);
        i += 1;
        assert(s@ =~= chars@.subrange(from as int, i as int));
    }
    s
}

/// A copy of a text.
pub fn copy(s: &str) -> (r: String)
    ensures
        r@ == s@,
{
    s.to_owned()
}

/// Three texts, one after the other.
pub fn concat(a: &str, b: &str, c: &str) -> (r: String)
    ensures
        r@ == a@ + b@ + c@,
{
    let mut r = copy(a);
    r.append(b);
    r.append(c);
    r
}

// ── Trimming, splitting, joining ─────────────────────────────────────────────

/// The text without the white space around it.
pub fn trim(s: &str) -> (r: String)
    ensures
        r@ == trimmed(s@),
{
    let chars = chars_of(s);
    let mut from: usize = 0;
    assert(chars@.skip(0) =~= chars@);
    while from < chars.len() && chars[from].is_whitespace()
        invariant
            from <= chars@.len(),
            trim_start(chars@) == trim_start(chars@.skip(from as int)),
        decreases chars@.len() - from,
    {
        proof {
            assert(chars@.skip(from as int).skip(1) =~= chars@.skip(from + 1));
        }
        from += 1;
    }
    let ghost tail = chars@.skip(from as int);
    assert(trim_start(s@) == tail);
    let mut to: usize = chars.len();
    assert(chars@.subrange(from as int, to as int) =~= tail);
    while from < to && chars[to - 1].is_whitespace()
        invariant
            from <= to <= chars@.len(),
            trim_end(tail) == trim_end(chars@.subrange(from as int, to as int)),
        decreases to - from,
    {
        proof {
            assert(chars@.subrange(from as int, to as int).drop_last() =~= chars@.subrange(
                from as int,
                to - 1,
            ));
        }
        to -= 1;
    }
    string_of(&chars, from, to)
}

/// The text without the slashes at its end.
pub fn trim_slashes(s: &str) -> (r: String)
    ensures
        r@ == trim_end_slashes(s@),
{
    let chars = chars_of(s);
    let mut to: usize = chars.len();
    assert(chars@.take(to as int) =~= chars@);
    while 0 < to && chars[to - 1] == '/'
        invariant
            to <= chars@.len(),
            trim_end_slashes(s@) == trim_end_slashes(chars@.take(to as int)),
        decreases to,
    {
        proof {
            assert(chars@.take(to as int).drop_last() =~= chars@.take(to - 1));
        }
        to -= 1;
    }
    assert(chars@.subrange(0, to as int) =~= chars@.take(to as int));
    string_of(&chars, 0, to)
}

/// The pieces of a text between the occurrences of a separator.
pub fn split(s: &str, sep: char) -> (pieces: Vec<String>)
    ensures
        views(pieces@) == split_on(s@, sep),
{
    let chars = chars_of(s);
    let mut pieces: Vec<String> = Vec::new();
    let mut piece = String::new();
    let mut i: usize = 0;
    assert(views(pieces@).push(piece@) =~= split_on(chars@.take(0), sep));
    while i < chars.len()
        invariant
            i <= chars@.len(),
            views(pieces@).push(piece@) == split_on(chars@.take(i as int), sep),
        decreases chars@.len() - i,
    {
        let ghost before = views(pieces@).push(piece@);
        proof {
            assert(chars@.take(i + 1).drop_last() =~= chars@.take(i as int));
            assert(before.drop_last() =~= views(pieces@));
        }
        if chars[i] == sep {
            let ghost old_pieces = pieces@;
            pieces.push(piece);
            assert(views(pieces@) =~= views(old_pieces).push(piece@));
            piece = String::new();
            assert(piece@ =~= Seq::empty());
        } else {
            piece.push(chars[i]);
        }
        i += 1;
        assert(views(pieces@).push(piece@) =~= split_on(chars@.take(i as int), sep));
    }
    assert(chars@.take(i as int) =~= s@);
    let ghost old_pieces = pieces@;
    pieces.push(piece);
    assert(views(pieces@) =~= views(old_pieces).push(piece@));
    pieces
}

/// The texts, one after the other, with a separator between each two.
pub fn join(pieces: &Vec<String>, sep: char) -> (r: String)
    ensures
        r@ == joined(views(pieces@), sep),
{
    let mut r = String::new();
    let mut i: usize = 0;
    assert(r@ =~= joined(views(pieces@).take(0), sep));
    while i < pieces.len()
        invariant
            i <= pieces@.len(),
            r@ == joined(views(pieces@).take(i as int), sep),
        decreases pieces@.len() - i,
    {
        proof {
            assert(views(pieces@).take(i + 1).drop_last() =~= views(pieces@).take(i as int));
        }
        if i > 0 {
            r.push(sep);
        }
        let ghost before = r@;
        r.append(pieces[i].as_str());
        assert(r@ =~= before + pieces@[i as int]@);
        i += 1;
        assert(r@ =~= joined(views(pieces@).take(i as int), sep));
    }
    assert(views(pieces@).take(i as int) =~= views(pieces@));
    r
}

/// What follows the last white space of a text.
pub fn word_at_end(s: &str) -> (r: String)
    ensures
        r@ == last_word(s@),
{
    let chars = chars_of(s);
    let mut from: usize = chars.len();
    assert(chars@.take(from as int) =~= chars@);
    assert(last_word(s@) =~= last_word(chars@.take(from as int)) + chars@.skip(from as int));
    while 0 < from && !chars[from - 1].is_whitespace()
        invariant
            from <= chars@.len(),
            last_word(s@) == last_word(chars@.take(from as int)) + chars@.skip(from as int),
        decreases from,
    {
        proof {
            assert(chars@.take(from as int).drop_last() =~= chars@.take(from - 1));
            assert(chars@.skip(from - 1) =~= seq![chars@[from - 1]] + chars@.skip(from as int));
            assert(last_word(s@) =~= last_word(chars@.take(from - 1)) + chars@.skip(from - 1));
        }
        from -= 1;
    }
    assert(last_word(chars@.take(from as int)) =~= Seq::empty());
    assert(chars@.subrange(from as int, chars@.len() as int) =~= chars@.skip(from as int));
    string_of(&chars, from, chars.len())
}

/// Whether a text starts with a prefix.
pub fn starts_with(s: &str, prefix: &str) -> (r: bool)
    ensures
        r == prefix@.is_prefix_of(s@),
{
    stands_at(&chars_of(s), &chars_of(prefix), 0)
}

/// Whether a text contains another one.
pub fn contains(hay: &str, needle: &str) -> (found: bool)
    ensures
        found == contains_text(hay@, needle@),
{
    let chars = chars_of(hay);
    let wanted = chars_of(needle);
    if wanted.len() > chars.len() {
        return false;
    }
    let last: usize = chars.len() - wanted.len();
    let mut i: usize = 0;
    while i < last
        invariant
            i <= last == chars@.len() - wanted@.len(),
            chars@ == hay@,
            wanted@ == needle@,
            forall|j: int| 0 <= j < i ==> !#[trigger] occurs_at(chars@, wanted@, j),
        decreases last - i,
    {
        if stands_at(&chars, &wanted, i) {
            assert(occurs_at(hay@, needle@, i as int));
            return true;
        }
        i += 1;
    }
    let found = stands_at(&chars, &wanted, last);
    assert(found == occurs_at(hay@, needle@, last as int));
    found
}

/// Whether characters stand in others from a position on.
fn stands_at(chars: &Vec<char>, wanted: &Vec<char>, at: usize) -> (r: bool)
    requires
        at <= chars@.len(),
    ensures
        r == occurs_at(chars@, wanted@, at as int),
{
    assert(chars@.len() == chars.len());
    if wanted.len() > chars.len() - at {
        return false;
    }
    let mut i: usize = 0;
    while i < wanted.len()
        invariant
            i <= wanted@.len(),
            at + wanted@.len() <= chars@.len() == chars.len(),
            forall|j: int| 0 <= j < i ==> chars@[at + j] == wanted@[j],
        decreases wanted@.len() - i,
    {
        if chars[at + i] != wanted[i] {
            assert(chars@.subrange(at as int, at + wanted@.len())[i as int] != wanted@[i as int]);
            return false;
        }
        i += 1;
    }
    assert(chars@.subrange(at as int, at + wanted@.len()) =~= wanted@);
    true
}

// ── Numbers ──────────────────────────────────────────────────────────────────

fn digit_of(d: u64) -> (c: char)
    requires
        d < 10,
    ensures
        c == digit_char(d as nat),
{
    if d == 0 {
        '0'
    } else if d == 1 {
        '1'
    } else if d == 2 {
        '2'
    } else if d == 3 {
        '3'
    } else if d == 4 {
        '4'
    } else if d == 5 {
        '5'
    } else if d == 6 {
        '6'
    } else if d == 7 {
        '7'
    } else if d == 8 {
        '8'
    } else {
        '9'
    }
}

/// A number in decimal.
pub fn u64_text(n: u64) -> (s: String)
    ensures
        s@ == decimal(n as nat),
    decreases n,
{
    let mut s = if n < 10 {
        String::new()
    } else {
        u64_text(n / 10)
    };
    s.push(digit_of(n % 10));
    assert(s@ =~= decimal(n as nat));
    s
}

/// The number that a text spells, as `str::parse::<u64>` reads it.
pub fn parse_u64(s: &str) -> (r: Option<u64>)
    ensures
        r == u64_of_text(s@),
{
    let chars = chars_of(s);
    let start: usize = if chars.len() > 0 && chars[0] == '+' {
        1
    } else {
        0
    };
    let ghost digits = unsigned_digits(s@);
    assert(digits =~= chars@.skip(start as int));
    if start == chars.len() {
        return None;
    }
    let mut value: u64 = 0;
    let mut i: usize = start;
    assert(digits.take(0) =~= Seq::<char>::empty());
    while i < chars.len()
        invariant
            start <= i <= chars@.len(),
            digits == chars@.skip(start as int),
            all_digits(digits.take(i - start)),
            value == digits_value(digits.take(i - start)),
            digits == unsigned_digits(s@),
        decreases chars@.len() - i,
    {
        let c = chars[i];
        proof {
            assert(digits[i - start] == c);
            assert(digits.take(i - start + 1).drop_last() =~= digits.take(i - start));
            assert(digits.take(i - start + 1).last() == c);
        }
        if !('0' <= c && c <= '9') {
            return None;
        }
        let d: u64 = (c as u32 - '0' as u32) as u64;
        assert(digits_value(digits.take(i - start + 1)) == value * 10 + d);
        if value > (u64::MAX - d) / 10 {
            proof {
                lemma_digits_value_monotonic(digits, i - start + 1);
            }
            return None;
        }
        value = value * 10 + d;
        i += 1;
        assert forall|j: int| 0 <= j < i - start implies '0' <= #[trigger] digits.take(
            i - start,
        )[j] <= '9' by {
            if j < i - start - 1 {
                assert(digits.take(i - start - 1)[j] == digits[j]);
            }
        }
    }
    assert(digits.take(i - start) =~= digits);
    Some(value)
}

/// More digits spell no smaller number.
proof fn lemma_digits_value_monotonic(digits: Seq<char>, k: int)
    requires
        0 <= k <= digits.len(),
    ensures
        digits_value(digits.take(k)) <= digits_value(digits),
    decreases digits.len() - k,
{
    if k < digits.len() {
        lemma_digits_value_monotonic(digits, k + 1);
        assert(digits.take(k + 1).drop_last() =~= digits.take(k));
    } else {
        assert(digits.take(k) =~= digits);
    }
}

/// What occurs in a part of a text occurs in the text.
pub proof fn lemma_part_contains(
    before: Seq<char>,
    part: Seq<char>,
    after: Seq<char>,
    needle: Seq<char>,
)
    requires
        contains_text(part, needle),
    ensures
        contains_text(before + part + after, needle),
{
    let i = choose|i: int| occurs_at(part, needle, i);
    let whole = before + part + after;
    let at = before.len() + i;
    assert(whole.subrange(at, at + needle.len()) =~= part.subrange(i, i + needle.len()));
    assert(occurs_at(whole, needle, at));
}

/// A text occurs in itself.
pub proof fn lemma_contains_itself(s: Seq<char>)
    ensures
        contains_text(s, s),
{
    assert(s.subrange(0, s.len() as int) =~= s);
    assert(occurs_at(s, s, 0));
}

// ── Splitting what was joined ────────────────────────────────────────────────

/// The separator does not occur in the text.
pub open spec fn free_of(s: Seq<char>, sep: char) -> bool {
    forall|i: int| 0 <= i < s.len() ==> #[trigger] s[i] != sep
}

proof fn lemma_split_one_piece(s: Seq<char>, sep: char)
    requires
        free_of(s, sep),
    ensures
        split_on(s, sep) == seq![s],
    decreases s.len(),
{
    if s.len() > 0 {
        lemma_split_one_piece(s.drop_last(), sep);
        assert(s.drop_last().push(s.last()) =~= s);
        assert(split_on(s, sep) =~= seq![s]);
    } else {
        assert(s =~= Seq::<char>::empty());
    }
}

proof fn lemma_split_last_piece(front: Seq<char>, piece: Seq<char>, sep: char)
    requires
        free_of(piece, sep),
    ensures
        split_on(front.push(sep) + piece, sep) == split_on(front, sep).push(piece),
    decreases piece.len(),
{
    let whole = front.push(sep) + piece;
    if piece.len() > 0 {
        lemma_split_last_piece(front, piece.drop_last(), sep);
        assert(whole.drop_last() =~= front.push(sep) + piece.drop_last());
        assert(piece.drop_last().push(piece.last()) =~= piece);
        assert(split_on(whole, sep) =~= split_on(front, sep).push(piece));
    } else {
        assert(piece =~= Seq::<char>::empty());
        assert(whole.drop_last() =~= front);
        assert(split_on(whole, sep) =~= split_on(front, sep).push(piece));
    }
}

/// Splitting gives back the pieces that were joined, where there is at least one and the
/// separator occurs in none.
pub proof fn law_split_undoes_join(pieces: Seq<Seq<char>>, sep: char)
    requires
        pieces.len() > 0,
        forall|i: int| 0 <= i < pieces.len() ==> free_of(#[trigger] pieces[i], sep),
    ensures
        split_on(joined(pieces, sep), sep) == pieces,
    decreases pieces.len(),
{
    assert(free_of(pieces[pieces.len() - 1], sep));
    if pieces.len() == 1 {
        lemma_split_one_piece(pieces[0], sep);
        assert(pieces =~= seq![pieces[0]]);
    } else {
        let front = pieces.drop_last();
        assert forall|i: int| 0 <= i < front.len() implies free_of(#[trigger] front[i], sep) by {
            assert(front[i] == pieces[i]);
        }
        law_split_undoes_join(front, sep);
        lemma_split_last_piece(joined(front, sep), pieces.last(), sep);
        assert(front.push(pieces.last()) =~= pieces);
    }
}

/// A base58 text holds no white space to trim, and no comma.
pub proof fn lemma_base58_is_bare(s: Seq<char>)
    requires
        is_base58(s),
    ensures
        trimmed(s) == s,
        free_of(s, ','),
{
    assert(is_base58_char(s[0]));
    assert(is_base58_char(s[s.len() - 1]));
    assert(trim_start(s) == s);
    assert(trim_end(s) == s);
    assert forall|i: int| 0 <= i < s.len() implies #[trigger] s[i] != ',' by {
        assert(is_base58_char(s[i]));
    }
}

/// A number in decimal has only digits, no leading zero, and spells the number.
pub proof fn law_decimal_spells_the_number(n: nat)
    ensures
        decimal(n).len() > 0,
        all_digits(decimal(n)),
        digits_value(decimal(n)) == n,
        n > 0 ==> decimal(n)[0] != '0',
        n == 0 ==> decimal(n) == seq!['0'],
    decreases n,
{
    if n < 10 {
        let d = decimal(n);
        assert(d.drop_last() =~= Seq::empty());
        assert(digits_value(d.drop_last()) == 0);
        assert(d.last() == digit_char(n));
    } else {
        law_decimal_spells_the_number(n / 10);
        let front = decimal(n / 10);
        let d = decimal(n);
        assert(d.drop_last() =~= front);
        assert(d.last() == digit_char(n % 10));
        assert(d[0] == front[0]);
        assert forall|i: int| 0 <= i < d.len() implies '0' <= #[trigger] d[i] <= '9' by {
            if i < front.len() {
                assert(d[i] == front[i]);
            }
        }
    }
}

/// A printed number reads back as the number, with a plus sign in front of it too, where it fits;
/// a larger one does not.
pub proof fn law_numbers_read_back(n: nat)
    ensures
        n <= u64::MAX ==> u64_of_text(decimal(n)) == Some(n as u64) && u64_of_text(
            seq!['+'] + decimal(n),
        ) == Some(n as u64),
        n > u64::MAX ==> u64_of_text(decimal(n)) is None,
{
    law_decimal_spells_the_number(n);
    let d = decimal(n);
    assert('0' <= d[0] <= '9');
    assert((seq!['+'] + d).skip(1) =~= d);
}

/// A text with anything but digits behind the sign spells no number, and neither does an empty
/// one.
pub proof fn law_only_digits_spell_a_number(s: Seq<char>, i: int)
    requires
        s.len() == 0 || 0 <= i < s.len() && !('0' <= s[i] <= '9') && !(i == 0 && s[i] == '+'),
    ensures
        u64_of_text(s) is None,
{
    if s.len() > 0 {
        let digits = unsigned_digits(s);
        if s[0] == '+' {
            assert(digits[i - 1] == s[i]);
        } else {
            assert(digits[i] == s[i]);
        }
    }
}

/// All characters are white space.
pub open spec fn all_white(s: Seq<char>) -> bool {
    forall|i: int| 0 <= i < s.len() ==> is_white_space(#[trigger] s[i])
}

/// Trimming takes off the white space around a text, and no more.
pub proof fn law_trimming_bares_a_text(before: Seq<char>, s: Seq<char>, after: Seq<char>)
    requires
        all_white(before),
        all_white(after),
        s.len() > 0 ==> !is_white_space(s[0]) && !is_white_space(s.last()),
    ensures
        trimmed(before + s + after) == s,
{
    if s.len() == 0 {
        let all = before + s + after;
        assert(all_white(all));
        lemma_trim_start_of_white(all);
        assert(trim_end(Seq::<char>::empty()) =~= Seq::<char>::empty());
        assert(s =~= Seq::<char>::empty());
    } else {
        lemma_trim_start(before, s + after);
        assert(before + s + after =~= before + (s + after));
        lemma_trim_end(s, after);
    }
}

proof fn lemma_trim_start_of_white(s: Seq<char>)
    requires
        all_white(s),
    ensures
        trim_start(s) == Seq::<char>::empty(),
    decreases s.len(),
{
    if s.len() > 0 {
        assert forall|i: int| 0 <= i < s.skip(1).len() implies is_white_space(
            #[trigger] s.skip(1)[i],
        ) by {
            assert(s.skip(1)[i] == s[i + 1]);
        }
        assert(is_white_space(s[0]));
        lemma_trim_start_of_white(s.skip(1));
    } else {
        assert(s =~= Seq::<char>::empty());
    }
}

proof fn lemma_trim_start(before: Seq<char>, rest: Seq<char>)
    requires
        all_white(before),
        rest.len() > 0,
        !is_white_space(rest[0]),
    ensures
        trim_start(before + rest) == rest,
    decreases before.len(),
{
    if before.len() > 0 {
        let tail = before.skip(1);
        assert forall|i: int| 0 <= i < tail.len() implies is_white_space(#[trigger] tail[i]) by {
            assert(tail[i] == before[i + 1]);
        }
        assert((before + rest).skip(1) =~= tail + rest);
        assert(is_white_space(before[0]));
        lemma_trim_start(tail, rest);
    } else {
        assert(before + rest =~= rest);
    }
}

proof fn lemma_trim_end(s: Seq<char>, after: Seq<char>)
    requires
        all_white(after),
        s.len() > 0,
        !is_white_space(s.last()),
    ensures
        trim_end(s + after) == s,
    decreases after.len(),
{
    if after.len() > 0 {
        let front = after.drop_last();
        assert forall|i: int| 0 <= i < front.len() implies is_white_space(#[trigger] front[i]) by {
            assert(front[i] == after[i]);
        }
        assert((s + after).drop_last() =~= s + front);
        assert(is_white_space(after[after.len() - 1]));
        lemma_trim_end(s, front);
    } else {
        assert(s + after =~= s);
    }
}

/// Slashes are taken off at the end of a text, all of them, and nothing else.
pub proof fn law_slashes_are_taken_off(s: Seq<char>, n: nat)
    requires
        s.len() > 0 ==> s.last() != '/',
    ensures
        trim_end_slashes(s + Seq::new(n, |i: int| '/')) == s,
    decreases n,
{
    let all = s + Seq::new(n, |i: int| '/');
    if n > 0 {
        law_slashes_are_taken_off(s, (n - 1) as nat);
        assert(all.drop_last() =~= s + Seq::new((n - 1) as nat, |i: int| '/'));
    } else {
        assert(all =~= s);
    }
}

/// The last word of a text is what stands behind its last white space.
pub proof fn law_the_last_word_stands_at_the_end(front: Seq<char>, white: char, word: Seq<char>)
    requires
        is_white_space(white),
        forall|i: int| 0 <= i < word.len() ==> !is_white_space(#[trigger] word[i]),
    ensures
        last_word(front.push(white) + word) == word,
        last_word(word) == word,
    decreases word.len(),
{
    let all = front.push(white) + word;
    if word.len() > 0 {
        let shorter = word.drop_last();
        assert forall|i: int| 0 <= i < shorter.len() implies !is_white_space(
            #[trigger] shorter[i],
        ) by {
            assert(shorter[i] == word[i]);
        }
        law_the_last_word_stands_at_the_end(front, white, shorter);
        assert(all.drop_last() =~= front.push(white) + shorter);
        assert(!is_white_space(word[word.len() - 1]));
        assert(shorter.push(word.last()) =~= word);
    } else {
        assert(all.last() == white);
        assert(word =~= Seq::<char>::empty());
    }
}

/// The pieces of a text are free of the separator, and joined they are the text again.
pub proof fn law_join_undoes_split(s: Seq<char>, sep: char)
    ensures
        split_on(s, sep).len() > 0,
        forall|i: int| 0 <= i < split_on(s, sep).len() ==> free_of(#[trigger] split_on(s, sep)[i], sep),
        joined(split_on(s, sep), sep) == s,
    decreases s.len(),
{
    let pieces = split_on(s, sep);
    if s.len() == 0 {
        assert(joined(pieces, sep) =~= s);
    } else {
        let front = s.drop_last();
        law_join_undoes_split(front, sep);
        let before = split_on(front, sep);
        assert(front.push(s.last()) =~= s);
        if s.last() == sep {
            assert(pieces.drop_last() =~= before);
            assert forall|i: int| 0 <= i < pieces.len() implies free_of(#[trigger] pieces[i], sep) by {
                if i < before.len() {
                    assert(pieces[i] == before[i]);
                }
            }
            assert(joined(pieces, sep) =~= s);
        } else {
            let last = before.last().push(s.last());
            assert(pieces == before.drop_last().push(last));
            assert(free_of(before[before.len() - 1], sep));
            assert forall|i: int| 0 <= i < pieces.len() implies free_of(#[trigger] pieces[i], sep) by {
                if i < before.len() - 1 {
                    assert(pieces[i] == before[i]);
                }
            }
            assert(pieces.drop_last() =~= before.drop_last());
            assert(joined(pieces, sep) =~= joined(before, sep).push(s.last()));
        }
    }
}

/// A text contains another exactly where it is that text with something before and after it,
/// which may be nothing.
pub proof fn law_a_part_is_contained(
    hay: &str,
    needle: &str,
    found: bool,
    before: Seq<char>,
    after: Seq<char>,
)
    requires
        call_ensures(contains, (hay, needle), found),
    ensures
        found == contains_text(hay@, needle@),
        hay@ == before + needle@ + after ==> found,
        found ==> exists|i: int|
            0 <= i <= hay@.len() - needle@.len() && hay@ == #[trigger] hay@.take(i) + needle@
                + hay@.skip(i + needle@.len()),
{
    if hay@ == before + needle@ + after {
        let at = before.len() as int;
        assert(hay@.subrange(at, at + needle@.len()) =~= needle@);
        assert(occurs_at(hay@, needle@, at));
    }
    if found {
        let i = choose|i: int| occurs_at(hay@, needle@, i);
        assert(hay@.subrange(i, i + needle@.len()) == needle@);
        assert forall|j: int| 0 <= j < needle@.len() implies hay@[i + j] == needle@[j] by {
            assert(hay@.subrange(i, i + needle@.len())[j] == needle@[j]);
        }
        assert(hay@ =~= hay@.take(i) + needle@ + hay@.skip(i + needle@.len()));
    }
}

/// A printed number is read as the number.
pub proof fn law_printed_numbers_are_read(
    n: u64,
    printed: String,
    text: &str,
    read: Option<u64>,
)
    requires
        call_ensures(u64_text, (n,), printed),
        text@ == printed@,
        call_ensures(parse_u64, (text,), read),
    ensures
        read == Some(n),
{
    law_numbers_read_back(n as nat);
}

/// The functions on texts give what their models say.
pub proof fn law_texts_are_cut_as_modelled(
    s: &str,
    prefix: &str,
    sep: char,
    list: &Vec<String>,
    bare: String,
    unslashed: String,
    pieces: Vec<String>,
    joint: String,
    word: String,
    starts: bool,
)
    requires
        call_ensures(trim, (s,), bare),
        call_ensures(trim_slashes, (s,), unslashed),
        call_ensures(split, (s, sep), pieces),
        call_ensures(join, (list, sep), joint),
        call_ensures(word_at_end, (s,), word),
        call_ensures(starts_with, (s, prefix), starts),
    ensures
        bare@ == trimmed(s@),
        unslashed@ == trim_end_slashes(s@),
        views(pieces@) == split_on(s@, sep),
        joint@ == joined(views(list@), sep),
        word@ == last_word(s@),
        starts <==> prefix@.len() <= s@.len() && s@.take(prefix@.len() as int) == prefix@,
{
    if prefix@.len() <= s@.len() {
        assert(s@.take(prefix@.len() as int) =~= s@.subrange(0, prefix@.len() as int));
    }
}

/// A number is read digit by digit: one more digit makes it ten times as large and adds the digit,
/// where that fits. Zeros in front do not matter, and what is no number does not become one by
/// further digits, unless it is nothing but an optional plus sign.
pub proof fn law_numbers_are_read_digit_by_digit(s: Seq<char>, c: char)
    requires
        '0' <= c <= '9',
    ensures
        ({
            let digit = c as u32 - '0' as u32;
            let longer = u64_of_text(s.push(c));
            match u64_of_text(s) {
                Some(n) => if n * 10 + digit <= u64::MAX {
                    longer == Some((n * 10 + digit) as u64)
                } else {
                    longer is None
                },
                None => if s.len() == 0 || s == seq!['+'] {
                    longer == Some(digit as u64)
                } else {
                    longer is None
                },
            }
        }),
{
    let digits = unsigned_digits(s);
    let longer = unsigned_digits(s.push(c));
    assert(longer =~= digits.push(c));
    assert(longer.drop_last() =~= digits);
    assert(longer.last() == c);
    assert(digits.len() == 0 <==> s.len() == 0 || s =~= seq!['+']);
    assert(all_digits(longer) <==> all_digits(digits)) by {
        assert(forall|i: int| 0 <= i < digits.len() ==> longer[i] == #[trigger] digits[i]);
        if all_digits(longer) {
            assert forall|i: int| 0 <= i < digits.len() implies '0' <= #[trigger] digits[i] <= '9' by {
                assert(longer[i] == digits[i]);
            }
        }
    }
}

}
