//! Text: numbers as digits, and the few operations on strings that std
//! provides.

use vstd::prelude::*;
use vstd::utf8::{decode_utf8, encode_utf8, encode_utf8_decode_utf8, valid_utf8};

verus! {

/// What `String::from_utf8_lossy` makes of a byte sequence.
pub uninterp spec fn lossy_text(bytes: Seq<u8>) -> Seq<char>;

/// `String::from_utf8_lossy`: the text of `bytes`, with replacement characters
/// where they are no UTF-8. Claimed: the result depends on the bytes alone,
/// and valid UTF-8 is decoded as it stands. Where the replacement characters
/// stand is left to std.
#[verifier::external_body]
fn text_from_utf8_lossy(bytes: &[u8]) -> (s: String)
    ensures
        s@ == lossy_text(bytes@),
        valid_utf8(bytes@) ==> s@ == decode_utf8(bytes@),
{
    String::from_utf8_lossy(bytes).into_owned()
}

/// How bytes that should be text are shown: as the text they are, or with
/// replacement characters where they are none.
pub open spec fn shown_text(bytes: Seq<u8>) -> Seq<char> {
    if valid_utf8(bytes) {
        decode_utf8(bytes)
    } else {
        lossy_text(bytes)
    }
}

/// The bytes as text that can be shown.
pub fn show(bytes: &[u8]) -> (s: String)
    ensures
        s@ == shown_text(bytes@),
{
    text_from_utf8_lossy(bytes)
}

/// `core::str::from_utf8`: the text of `bytes`. Claimed: there is one exactly
/// where the bytes are valid UTF-8, and it is what they decode to.
#[verifier::external_body]
pub(crate) fn text_from_utf8(bytes: &[u8]) -> (r: Option<&str>)
    ensures
        match r {
            Some(s) => valid_utf8(bytes@) && s@ == decode_utf8(bytes@),
            None => !valid_utf8(bytes@),
        },
{
    core::str::from_utf8(bytes).ok()
}

/// What `core::str::Utf8Error` says about a byte sequence that is no UTF-8.
pub uninterp spec fn utf8_error_text(bytes: Seq<u8>) -> Seq<char>;

/// `core::str::Utf8Error` as text: what `core::str::from_utf8` finds wrong with
/// `bytes`. Claimed: the text depends on the bytes alone. Its wording is left to
/// std.
#[verifier::external_body]
pub(crate) fn describe_utf8_error(bytes: &[u8]) -> (s: String)
    requires
        !valid_utf8(bytes@),
    ensures
        s@ == utf8_error_text(bytes@),
{
    match core::str::from_utf8(bytes) {
        Ok(_) => String::new(),
        Err(e) => format!("{}", e),
    }
}

// ---------------------------------------------------------------------------
// Numbers
// ---------------------------------------------------------------------------

/// The digit for `n`, which is below sixteen.
pub open spec fn digit(n: int) -> char {
    if n < 10 {
        (48 + n) as char
    } else {
        (87 + n) as char
    }
}

/// The digits of `n` to the given base, most significant first.
pub open spec fn digits(n: int, base: int) -> Seq<char>
    decreases n,
{
    if n < base || base < 2 {
        seq![digit(n)]
    } else {
        proof {
            assert(0 <= n / base < n) by (nonlinear_arith)
                requires
                    n >= base,
                    base >= 2,
            ;
        }
        digits(n / base, base).push(digit(n % base))
    }
}

/// `n` as a decimal number.
pub open spec fn decimal(n: int) -> Seq<char> {
    digits(n, 10)
}

/// `n` as a hexadecimal number with lower-case digits.
pub open spec fn hex(n: int) -> Seq<char> {
    digits(n, 16)
}

/// `n` as a hexadecimal number behind `0x`.
pub open spec fn hex_prefixed(n: int) -> Seq<char> {
    "0x"@ + hex(n)
}

fn digit_text(n: u64) -> (s: &'static str)
    requires
        n < 16,
    ensures
        s@ == seq![digit(n as int)],
{
    proof {
        reveal_strlit("0");
        reveal_strlit("1");
        reveal_strlit("2");
        reveal_strlit("3");
        reveal_strlit("4");
        reveal_strlit("5");
        reveal_strlit("6");
        reveal_strlit("7");
        reveal_strlit("8");
        reveal_strlit("9");
        reveal_strlit("a");
        reveal_strlit("b");
        reveal_strlit("c");
        reveal_strlit("d");
        reveal_strlit("e");
        reveal_strlit("f");
    }
    match n {
        0 => "0",
        1 => "1",
        2 => "2",
        3 => "3",
        4 => "4",
        5 => "5",
        6 => "6",
        7 => "7",
        8 => "8",
        9 => "9",
        10 => "a",
        11 => "b",
        12 => "c",
        13 => "d",
        14 => "e",
        _ => "f",
    }
}

/// Appends `n` to the given base.
fn push_digits(out: &mut String, n: u64, base: u64)
    requires
        2 <= base <= 16,
    ensures
        final(out)@ == old(out)@ + digits(n as int, base as int),
    decreases n,
{
    if n < base {
        out.append(digit_text(n));
    } else {
        let high: u64 = n / base;
        let low: u64 = n % base;
        assert(high < n) by (nonlinear_arith)
            requires
                high == n / base,
                n >= base,
                base >= 2,
        ;
        push_digits(out, high, base);
        out.append(digit_text(low));
        assert(out@ =~= old(out)@ + digits(n as int, base as int));
    }
}

/// Appends `n` as a decimal number.
pub fn push_decimal(out: &mut String, n: u64)
    ensures
        final(out)@ == old(out)@ + decimal(n as int),
{
    push_digits(out, n, 10);
}

/// Appends `n` as a hexadecimal number behind `0x`.
pub fn push_hex(out: &mut String, n: u64)
    ensures
        final(out)@ == old(out)@ + hex_prefixed(n as int),
{
    out.append("0x");
    push_digits(out, n, 16);
    assert(out@ =~= old(out)@ + hex_prefixed(n as int));
}

// ---------------------------------------------------------------------------
// White space
// ---------------------------------------------------------------------------

/// The character has Unicode's property White_Space.
pub open spec fn is_space(c: char) -> bool {
    let n = c as int;
    ||| 0x09 <= n <= 0x0D
    ||| n == 0x20
    ||| n == 0x85
    ||| n == 0xA0
    ||| n == 0x1680
    ||| 0x2000 <= n <= 0x200A
    ||| n == 0x2028
    ||| n == 0x2029
    ||| n == 0x202F
    ||| n == 0x205F
    ||| n == 0x3000
}

/// `s` without the white space at its beginning.
pub open spec fn trim_start(s: Seq<char>) -> Seq<char>
    decreases s.len(),
{
    if s.len() > 0 && is_space(s[0]) {
        trim_start(s.drop_first())
    } else {
        s
    }
}

/// `s` without the white space at its end.
pub open spec fn trim_end(s: Seq<char>) -> Seq<char>
    decreases s.len(),
{
    if s.len() > 0 && is_space(s.last()) {
        trim_end(s.drop_last())
    } else {
        s
    }
}

/// `s` without the white space around it.
pub open spec fn trimmed(s: Seq<char>) -> Seq<char> {
    trim_end(trim_start(s))
}

/// Characters of `s` before the first white space.
pub open spec fn word_len(s: Seq<char>) -> int
    decreases s.len(),
{
    if s.len() > 0 && !is_space(s[0]) {
        1 + word_len(s.drop_first())
    } else {
        0
    }
}

proof fn lemma_word_len(s: Seq<char>)
    ensures
        0 <= word_len(s) <= s.len(),
        s.len() > 0 && !is_space(s[0]) ==> word_len(s) > 0,
    decreases s.len(),
{
    if s.len() > 0 && !is_space(s[0]) {
        lemma_word_len(s.drop_first());
    }
}

pub proof fn lemma_trim_start(s: Seq<char>)
    ensures
        trim_start(s).len() <= s.len(),
        trim_start(s).len() > 0 ==> !is_space(trim_start(s)[0]),
    decreases s.len(),
{
    if s.len() > 0 && is_space(s[0]) {
        lemma_trim_start(s.drop_first());
    }
}

/// The words of `s`: what stands between white space.
pub open spec fn words(s: Seq<char>) -> Seq<Seq<char>>
    decreases s.len(),
{
    let t = trim_start(s);
    if t.len() == 0 {
        Seq::empty()
    } else {
        proof {
            lemma_words_decrease(s);
        }
        seq![t.take(word_len(t))] + words(t.skip(word_len(t)))
    }
}

pub proof fn lemma_words_decrease(s: Seq<char>)
    requires
        trim_start(s).len() > 0,
    ensures
        0 < word_len(trim_start(s)) <= trim_start(s).len() <= s.len(),
{
    lemma_trim_start(s);
    lemma_word_len(trim_start(s));
}

/// Whether the character is white space.
pub fn is_whitespace(c: char) -> (b: bool)
    ensures
        b == is_space(c),
{
    let n: u32 = c as u32;
    (0x09 <= n && n <= 0x0D) || n == 0x20 || n == 0x85 || n == 0xA0 || n == 0x1680 || (0x2000 <= n
        && n <= 0x200A) || n == 0x2028 || n == 0x2029 || n == 0x202F || n == 0x205F || n == 0x3000
}

/// `s` without the white space around it.
pub fn trim(s: &str) -> (r: &str)
    ensures
        r@ == trimmed(s@),
{
    let len: usize = s.unicode_len();
    let mut i: usize = 0;
    assert(s@.skip(0) =~= s@);
    while i < len && is_whitespace(s.get_char(i))
        invariant
            i <= len == s@.len(),
            trim_start(s@) == trim_start(s@.skip(i as int)),
        decreases len - i,
    {
        assert(s@.skip(i as int).drop_first() =~= s@.skip(i + 1));
        i += 1;
    }
    let ghost t = s@.skip(i as int);
    assert(trim_start(s@) == t);
    let mut j: usize = len;
    assert(s@.subrange(i as int, len as int) =~= t);
    while j > i && is_whitespace(s.get_char(j - 1))
        invariant
            i <= j <= len == s@.len(),
            trim_end(t) == trim_end(s@.subrange(i as int, j as int)),
        decreases j - i,
    {
        assert(s@.subrange(i as int, j as int).drop_last() =~= s@.subrange(i as int, j - 1));
        j -= 1;
    }
    s.substring_char(i, j)
}

/// The texts by their characters.
pub open spec fn views(v: Seq<String>) -> Seq<Seq<char>> {
    v.map_values(|s: String| s@)
}

/// The words of `s`.
pub fn split_whitespace(s: &str) -> (v: Vec<String>)
    ensures
        views(v@) == words(s@),
{
    let len: usize = s.unicode_len();
    let mut v: Vec<String> = Vec::new();
    let mut i: usize = 0;
    assert(s@.skip(0) =~= s@);
    assert(views(v@) + words(s@.skip(0)) =~= words(s@));
    while i < len
        invariant
            i <= len == s@.len(),
            views(v@) + words(s@.skip(i as int)) == words(s@),
        decreases len - i,
    {
        let ghost rest = s@.skip(i as int);
        if is_whitespace(s.get_char(i)) {
            assert(rest.drop_first() =~= s@.skip(i + 1));
            assert(trim_start(rest) == trim_start(rest.drop_first()));
            assert(words(rest) == words(rest.drop_first()));
            i += 1;
        } else {
            let start: usize = i;
            assert(trim_start(rest) == rest);
            assert(s@.skip(i as int) =~= rest);
            while i < len && !is_whitespace(s.get_char(i))
                invariant
                    start <= i <= len == s@.len(),
                    rest == s@.skip(start as int),
                    word_len(rest) == (i - start) + word_len(s@.skip(i as int)),
                decreases len - i,
            {
                assert(s@.skip(i as int).drop_first() =~= s@.skip(i + 1));
                i += 1;
            }
            let ghost n = i - start;
            assert(word_len(rest) == n);
            proof {
                lemma_word_len(rest);
            }
            let ghost before = v@;
            let word = String::from_str(s.substring_char(start, i));
            v.push(word);
            proof {
                assert(word@ =~= rest.take(n));
                assert(rest.skip(n) =~= s@.skip(i as int));
                assert(words(rest) == seq![rest.take(n)] + words(rest.skip(n)));
                assert(views(v@) =~= views(before).push(word@));
                assert(views(v@) + words(s@.skip(i as int)) =~= views(before) + words(rest));
            }
        }
    }
    assert(s@.skip(i as int) =~= Seq::<char>::empty());
    assert(words(s@.skip(i as int)) =~= Seq::<Seq<char>>::empty());
    assert(views(v@) =~= words(s@));
    v
}

// ---------------------------------------------------------------------------
// Parts
// ---------------------------------------------------------------------------

/// Whether two texts are the same.
pub fn same_text(a: &str, b: &str) -> (same: bool)
    ensures
        same == (a@ == b@),
{
    let x = a.as_bytes();
    let y = b.as_bytes();
    proof {
        encode_utf8_decode_utf8(a@);
        encode_utf8_decode_utf8(b@);
    }
    if x.len() != y.len() {
        return false;
    }
    let mut i: usize = 0;
    while i < x.len()
        invariant
            i <= x@.len() == y@.len(),
            x@ == encode_utf8(a@),
            y@ == encode_utf8(b@),
            forall|k: int| 0 <= k < i ==> x@[k] == y@[k],
        decreases x@.len() - i,
    {
        if x[i] != y[i] {
            return false;
        }
        i += 1;
    }
    assert(x@ =~= y@);
    true
}

/// The parts with `sep` between them.
pub open spec fn joined(parts: Seq<Seq<char>>, sep: Seq<char>) -> Seq<char>
    decreases parts.len(),
{
    if parts.len() == 0 {
        Seq::empty()
    } else if parts.len() == 1 {
        parts[0]
    } else {
        joined(parts.drop_last(), sep) + sep + parts.last()
    }
}

/// The parts from `from` on with `sep` between them.
pub fn join_from(parts: &Vec<String>, from: usize, sep: &str) -> (s: String)
    requires
        from <= parts@.len(),
    ensures
        s@ == joined(views(parts@).skip(from as int), sep@),
{
    let mut s = String::new();
    let mut i: usize = from;
    let ghost all = views(parts@).skip(from as int);
    assert(all.take(0) =~= Seq::<Seq<char>>::empty());
    while i < parts.len()
        invariant
            from <= i <= parts@.len(),
            all == views(parts@).skip(from as int),
            s@ == joined(all.take(i - from), sep@),
        decreases parts@.len() - i,
    {
        let ghost k = i - from;
        if i > from {
            s.append(sep);
        }
        s.append(parts[i].as_str());
        proof {
            let next = all.take(k + 1);
            assert(next.drop_last() =~= all.take(k));
            assert(next.last() == parts@[i as int]@);
            if k == 0 {
                assert(next.len() == 1);
                assert(s@ =~= next[0]);
            } else {
                assert(s@ =~= joined(next, sep@));
            }
        }
        i += 1;
    }
    assert(all.take(i - from) =~= all);
    s
}

/// Where `c` first occurs in `s` from `i` on; the length where it does not.
pub open spec fn find_char(s: Seq<char>, c: char, i: int) -> int
    decreases s.len() - i,
{
    if i >= s.len() || s[i] == c {
        i
    } else {
        find_char(s, c, i + 1)
    }
}

pub proof fn lemma_find_char(s: Seq<char>, c: char, i: int)
    requires
        0 <= i <= s.len(),
    ensures
        i <= find_char(s, c, i) <= s.len(),
    decreases s.len() - i,
{
    if i < s.len() && s[i] != c {
        lemma_find_char(s, c, i + 1);
    }
}

/// The pieces of `s` between the separators `c`, from `i` on.
pub open spec fn pieces(s: Seq<char>, c: char, i: int) -> Seq<Seq<char>>
    decreases s.len() - i,
    when 0 <= i <= s.len()
{
    let j = find_char(s, c, i);
    if j >= s.len() {
        seq![s.subrange(i, s.len() as int)]
    } else {
        proof {
            lemma_find_char(s, c, i);
        }
        seq![s.subrange(i, j)] + pieces(s, c, j + 1)
    }
}

/// The pieces of `s` between the separators `c`.
pub fn split_char(s: &str, c: char) -> (v: Vec<String>)
    ensures
        views(v@) == pieces(s@, c, 0),
{
    let len: usize = s.unicode_len();
    let mut v: Vec<String> = Vec::new();
    let mut start: usize = 0;
    let mut i: usize = 0;
    let ghost all = pieces(s@, c, 0);
    assert(views(v@) + pieces(s@, c, 0) =~= all);
    while i < len
        invariant
            start <= i <= len == s@.len(),
            all == pieces(s@, c, 0),
            find_char(s@, c, start as int) == find_char(s@, c, i as int),
            views(v@) + pieces(s@, c, start as int) == all,
        decreases len - i,
    {
        if s.get_char(i) == c {
            let ghost before = v@;
            let piece = String::from_str(s.substring_char(start, i));
            v.push(piece);
            proof {
                assert(find_char(s@, c, start as int) == i);
                assert(piece@ == s@.subrange(start as int, i as int));
                assert(views(v@) =~= views(before).push(piece@));
                assert(pieces(s@, c, start as int) == seq![piece@] + pieces(s@, c, i + 1));
                assert(views(v@) + pieces(s@, c, i + 1) =~= all);
            }
            start = i + 1;
        }
        i += 1;
    }
    let ghost before = v@;
    let piece = String::from_str(s.substring_char(start, len));
    v.push(piece);
    proof {
        assert(pieces(s@, c, start as int) =~= seq![piece@]);
        assert(views(v@) =~= views(before).push(piece@));
        assert(views(v@) =~= all);
    }
    v
}

// ---------------------------------------------------------------------------
// What holds of texts
// ---------------------------------------------------------------------------

/// What the character counts for as a digit.
pub open spec fn digit_value(c: char) -> int {
    if '0' <= c && c <= '9' {
        c as int - '0' as int
    } else if 'a' <= c && c <= 'f' {
        c as int - 'a' as int + 10
    } else {
        -1
    }
}

/// The number that the digits spell to the given base, most significant first.
pub open spec fn value_of(s: Seq<char>, base: int) -> int
    decreases s.len(),
{
    if s.len() == 0 {
        0
    } else {
        value_of(s.drop_last(), base) * base + digit_value(s.last())
    }
}

proof fn lemma_digits(n: int, base: int)
    requires
        0 <= n,
        2 <= base <= 16,
    ensures
        value_of(digits(n, base), base) == n,
        digits(n, base).len() >= 1,
        forall|i: int|
            0 <= i < digits(n, base).len() ==> 0 <= digit_value(#[trigger] digits(n, base)[i])
                < base,
        n > 0 ==> digits(n, base)[0] != '0',
        n == 0 ==> digits(n, base).len() == 1,
    decreases n,
{
    let s = digits(n, base);
    reveal_with_fuel(value_of, 2);
    if n < base {
        assert(s.drop_last() =~= Seq::<char>::empty());
    } else {
        assert(0 < n / base < n && n == (n / base) * base + n % base && 0 <= n % base < base)
            by (nonlinear_arith)
            requires
                n >= base,
                base >= 2,
        ;
        lemma_digits(n / base, base);
        assert(s.drop_last() =~= digits(n / base, base));
        assert(s[0] == digits(n / base, base)[0]);
        assert forall|i: int| 0 <= i < s.len() implies 0 <= digit_value(#[trigger] s[i])
            < base by {
            if i < s.len() - 1 {
                assert(s[i] == digits(n / base, base)[i]);
            }
        }
    }
}

/// A number in decimal consists of the digits 0 to 9, has no zero in front
/// unless it is zero, and spells the number.
pub proof fn law_decimal(n: int)
    requires
        0 <= n,
    ensures
        value_of(decimal(n), 10) == n,
        decimal(n).len() >= 1,
        forall|i: int|
            0 <= i < decimal(n).len() ==> '0' <= #[trigger] decimal(n)[i] && decimal(n)[i] <= '9',
        n > 0 ==> decimal(n)[0] != '0',
        n == 0 ==> decimal(n).len() == 1,
{
    lemma_digits(n, 10);
    assert forall|i: int| 0 <= i < decimal(n).len() implies '0' <= #[trigger] decimal(n)[i]
        && decimal(n)[i] <= '9' by {
        assert(0 <= digit_value(digits(n, 10)[i]) < 10);
    }
}

/// A number in hexadecimal consists of the digits 0 to 9 and a to f, has no
/// zero in front unless it is zero, and spells the number; `0x` may be put
/// before it.
pub proof fn law_hex(n: int)
    requires
        0 <= n,
    ensures
        value_of(hex(n), 16) == n,
        hex(n).len() >= 1,
        forall|i: int| 0 <= i < hex(n).len() ==> 0 <= digit_value(#[trigger] hex(n)[i]) < 16,
        n > 0 ==> hex(n)[0] != '0',
        n == 0 ==> hex(n).len() == 1,
        hex_prefixed(n) == seq!['0', 'x'] + hex(n),
{
    lemma_digits(n, 16);
    reveal_strlit("0x");
    assert("0x"@ =~= seq!['0', 'x']);
}

/// Text that was encoded is shown as it was.
pub proof fn law_shown_text(s: Seq<char>)
    ensures
        shown_text(encode_utf8(s)) == s,
{
    vstd::utf8::encode_utf8_valid_utf8(s);
    encode_utf8_decode_utf8(s);
}

/// Among the characters of ASCII, the space and the five characters from the
/// tabulator to the carriage return are white space.
pub proof fn law_ascii_space(c: char)
    requires
        c as int <= 0x7F,
    ensures
        is_space(c) <==> c == ' ' || c == '\t' || c == '\n' || c as int == 0x0B || c as int == 0x0C
            || c == '\r',
{
}

/// All characters of `s` are white space.
pub open spec fn blank(s: Seq<char>) -> bool {
    forall|i: int| 0 <= i < s.len() ==> is_space(#[trigger] s[i])
}

/// No character of `s` is white space.
pub open spec fn solid(s: Seq<char>) -> bool {
    forall|i: int| 0 <= i < s.len() ==> !is_space(#[trigger] s[i])
}

proof fn lemma_trim_start_blank(before: Seq<char>, s: Seq<char>)
    requires
        blank(before),
        s.len() > 0 ==> !is_space(s[0]),
    ensures
        trim_start(before + s) == s,
    decreases before.len(),
{
    let t = before + s;
    if before.len() == 0 {
        assert(t =~= s);
    } else {
        assert(t[0] == before[0]);
        assert(t.drop_first() =~= before.drop_first() + s);
        lemma_trim_start_blank(before.drop_first(), s);
    }
}

proof fn lemma_trim_end_blank(s: Seq<char>, behind: Seq<char>)
    requires
        blank(behind),
        s.len() > 0 ==> !is_space(s.last()),
    ensures
        trim_end(s + behind) == s,
    decreases behind.len(),
{
    let t = s + behind;
    if behind.len() == 0 {
        assert(t =~= s);
    } else {
        assert(t.last() == behind.last());
        assert(t.drop_last() =~= s + behind.drop_last());
        lemma_trim_end_blank(s, behind.drop_last());
    }
}

/// White space around a text that neither begins nor ends with any is taken
/// away, and nothing else; of white space alone nothing is left.
pub proof fn law_trimmed(before: Seq<char>, s: Seq<char>, behind: Seq<char>)
    requires
        blank(before),
        blank(behind),
        s.len() > 0 ==> !is_space(s[0]) && !is_space(s.last()),
    ensures
        trimmed(before + s + behind) == s,
{
    if s.len() == 0 {
        let t = before + s + behind;
        assert(blank(t));
        assert(t =~= t + s);
        lemma_trim_start_blank(t, s);
    } else {
        assert(before + s + behind =~= before + (s + behind));
        lemma_trim_start_blank(before, s + behind);
        lemma_trim_end_blank(s, behind);
    }
}

proof fn lemma_word_len_of(w: Seq<char>, rest: Seq<char>)
    requires
        solid(w),
        rest.len() > 0 ==> is_space(rest[0]),
    ensures
        word_len(w + rest) == w.len(),
    decreases w.len(),
{
    let t = w + rest;
    if w.len() > 0 {
        assert(t[0] == w[0]);
        assert(t.drop_first() =~= w.drop_first() + rest);
        lemma_word_len_of(w.drop_first(), rest);
    } else {
        assert(t =~= rest);
    }
}

/// White space has no words. A text that begins with a word, white space in
/// front of it and the end or more white space behind it, has that word and then
/// the words of the rest.
pub proof fn law_words(before: Seq<char>, w: Seq<char>, rest: Seq<char>)
    requires
        blank(before),
        w.len() > 0,
        solid(w),
        rest.len() > 0 ==> is_space(rest[0]),
    ensures
        words(before) == Seq::<Seq<char>>::empty(),
        words(before + w + rest) == seq![w] + words(rest),
{
    let none = Seq::<char>::empty();
    assert(before =~= before + none);
    lemma_trim_start_blank(before, none);
    let t = w + rest;
    assert(before + w + rest =~= before + t);
    assert(t[0] == w[0]);
    lemma_trim_start_blank(before, t);
    lemma_word_len_of(w, rest);
    assert(t.take(w.len() as int) =~= w);
    assert(t.skip(w.len() as int) =~= rest);
}

/// Nothing is joined to nothing and one part to itself; each further part comes
/// behind the others and a separator.
pub proof fn law_joined(parts: Seq<Seq<char>>, part: Seq<char>, sep: Seq<char>)
    ensures
        joined(Seq::empty(), sep) == Seq::<char>::empty(),
        joined(seq![part], sep) == part,
        parts.len() > 0 ==> joined(parts.push(part), sep) == joined(parts, sep) + sep + part,
{
    assert(parts.push(part).drop_last() =~= parts);
}

proof fn lemma_find_char_in(s: Seq<char>, c: char, i: int, j: int)
    requires
        0 <= i <= j <= s.len(),
        forall|k: int| i <= k < j ==> s[k] != c,
        j < s.len() ==> s[j] == c,
    ensures
        find_char(s, c, i) == j,
    decreases j - i,
{
    if i < j {
        lemma_find_char_in(s, c, i + 1, j);
    }
}

proof fn lemma_find_char_shifted(a: Seq<char>, s: Seq<char>, c: char, i: int)
    requires
        0 <= i <= s.len(),
    ensures
        find_char(a + s, c, a.len() + i) == a.len() + find_char(s, c, i),
    decreases s.len() - i,
{
    if i < s.len() {
        assert((a + s)[a.len() + i] == s[i]);
        lemma_find_char_shifted(a, s, c, i + 1);
    }
}

proof fn lemma_pieces_shifted(a: Seq<char>, s: Seq<char>, c: char, i: int)
    requires
        0 <= i <= s.len(),
    ensures
        pieces(a + s, c, a.len() + i) == pieces(s, c, i),
    decreases s.len() - i,
{
    let t = a + s;
    let j = find_char(s, c, i);
    lemma_find_char_shifted(a, s, c, i);
    lemma_find_char(s, c, i);
    if j >= s.len() {
        assert(t.subrange(a.len() + i, t.len() as int) =~= s.subrange(i, s.len() as int));
    } else {
        assert(t.subrange(a.len() + i, a.len() + j) =~= s.subrange(i, j));
        lemma_pieces_shifted(a, s, c, j + 1);
    }
}

/// A text without the separator is one piece; a text in which one follows is
/// the piece before it and then the pieces of what comes behind it.
pub proof fn law_pieces(a: Seq<char>, c: char, rest: Seq<char>)
    requires
        !a.contains(c),
    ensures
        pieces(a, c, 0) == seq![a],
        pieces(a + seq![c] + rest, c, 0) == seq![a] + pieces(rest, c, 0),
{
    let n = a.len() as int;
    let t = a + seq![c] + rest;
    lemma_find_char_in(a, c, 0, n);
    assert(a.subrange(0, n) =~= a);
    assert(t[n] == c);
    assert forall|k: int| 0 <= k < n implies t[k] != c by {
        assert(t[k] == a[k]);
    }
    lemma_find_char_in(t, c, 0, n);
    assert(t.subrange(0, n) =~= a);
    lemma_pieces_shifted(a + seq![c], rest, c, 0);
}

/// Beyond ASCII, white space is what Unicode has as such: the next line, the
/// spaces of fixed width, the separators of lines and paragraphs, and a few more.
pub proof fn law_wide_space(c: char)
    requires
        c as int > 0x7F,
    ensures
        is_space(c) <==> c == '\u{85}' || c == '\u{A0}' || c == '\u{1680}' || ('\u{2000}' <= c && c
            <= '\u{200A}') || c == '\u{2028}' || c == '\u{2029}' || c == '\u{202F}' || c
            == '\u{205F}' || c == '\u{3000}',
{
}

/// Texts go by their characters, each in its place.
pub proof fn law_views(v: Seq<String>, i: int)
    requires
        0 <= i < v.len(),
    ensures
        views(v).len() == v.len(),
        views(v)[i] == v[i]@,
{
}

} // verus!
