//! Operations on text, specified over sequences of characters.

use vstd::prelude::*;
use vstd::string::*;

verus! {

/// Lower-case form of an ASCII capital; any other character unchanged.
pub open spec fn lower_char(c: char) -> char {
    if 'A' <= c && c <= 'Z' {
        ((c as u32 + 32) as u8) as char
    } else {
        c
    }
}

/// Upper-case form of an ASCII small letter; any other character unchanged.
pub open spec fn upper_char(c: char) -> char {
    if 'a' <= c && c <= 'z' {
        ((c as u32 - 32) as u8) as char
    } else {
        c
    }
}

pub open spec fn ascii_lower(s: Seq<char>) -> Seq<char> {
    s.map_values(|c: char| lower_char(c))
}

pub open spec fn ascii_upper(s: Seq<char>) -> Seq<char> {
    s.map_values(|c: char| upper_char(c))
}

/// Whether two texts differ at most in the case of ASCII letters.
pub open spec fn same_ignoring_case(a: Seq<char>, b: Seq<char>) -> bool {
    ascii_lower(a) == ascii_lower(b)
}

/// The characters with the Unicode `White_Space` property.
pub open spec fn is_white_space(c: char) -> bool {
    let code = c as u32;
    ||| 0x09 <= code <= 0x0d
    ||| code == 0x20
    ||| code == 0x85
    ||| code == 0xa0
    ||| code == 0x1680
    ||| 0x2000 <= code <= 0x200a
    ||| code == 0x2028
    ||| code == 0x2029
    ||| code == 0x202f
    ||| code == 0x205f
    ||| code == 0x3000
}

/// Text without the leading characters that satisfy `strip`.
pub open spec fn strip_front(s: Seq<char>, strip: spec_fn(char) -> bool) -> Seq<char>
    decreases s.len(),
{
    if s.len() > 0 && strip(s[0]) {
        strip_front(s.subrange(1, s.len() as int), strip)
    } else {
        s
    }
}

/// Text without the trailing characters that satisfy `strip`.
pub open spec fn strip_back(s: Seq<char>, strip: spec_fn(char) -> bool) -> Seq<char>
    decreases s.len(),
{
    if s.len() > 0 && strip(s.last()) {
        strip_back(s.drop_last(), strip)
    } else {
        s
    }
}

/// Text without surrounding white space.
pub open spec fn trimmed(s: Seq<char>) -> Seq<char> {
    strip_back(strip_front(s, |c: char| is_white_space(c)), |c: char| is_white_space(c))
}

/// Whether `needle` occurs in `s`.
pub open spec fn occurs_in(needle: Seq<char>, s: Seq<char>) -> bool {
    exists|i: int|
        0 <= i && i + needle.len() <= s.len() && #[trigger] s.subrange(i, i + needle.len())
            == needle
}

/// Whether `s` begins with `prefix`.
pub open spec fn begins_with(s: Seq<char>, prefix: Seq<char>) -> bool {
    prefix.len() <= s.len() && s.subrange(0, prefix.len() as int) == prefix
}

/// Whether `s` ends with `suffix`.
pub open spec fn ends_with(s: Seq<char>, suffix: Seq<char>) -> bool {
    suffix.len() <= s.len() && s.subrange(s.len() - suffix.len(), s.len() as int) == suffix
}

/// Decimal digits of a natural number.
pub open spec fn nat_text(n: nat) -> Seq<char>
    decreases n,
{
    let last = seq![(48 + n % 10) as u8 as char];
    if n < 10 {
        last
    } else {
        nat_text(n / 10) + last
    }
}

/// The last `width` decimal digits of a natural number, with leading zeros.
pub open spec fn padded_text(n: nat, width: nat) -> Seq<char>
    decreases width,
{
    if width == 0 {
        Seq::empty()
    } else {
        padded_text(n / 10, (width - 1) as nat).push((48 + n % 10) as u8 as char)
    }
}

/// Upper-case form of a text under the Unicode mapping.
pub uninterp spec fn unicode_upper(s: Seq<char>) -> Seq<char>;

/// The small letters stand in the order of their codes.
proof fn lemma_small_letters()
    ensures
        "abcdefghijklmnopqrstuvwxyz"@.len() == 26,
        forall|k: int|
            0 <= k < 26 ==> #[trigger] "abcdefghijklmnopqrstuvwxyz"@[k] == ((97 + k) as u8) as char,
{
    reveal_strlit("abcdefghijklmnopqrstuvwxyz");
    let s = "abcdefghijklmnopqrstuvwxyz"@;
    assert(s[0] == 'a');
    assert(s[1] == 'b');
    assert(s[2] == 'c');
    assert(s[3] == 'd');
    assert(s[4] == 'e');
    assert(s[5] == 'f');
    assert(s[6] == 'g');
    assert(s[7] == 'h');
    assert(s[8] == 'i');
    assert(s[9] == 'j');
    assert(s[10] == 'k');
    assert(s[11] == 'l');
    assert(s[12] == 'm');
    assert(s[13] == 'n');
    assert(s[14] == 'o');
    assert(s[15] == 'p');
    assert(s[16] == 'q');
    assert(s[17] == 'r');
    assert(s[18] == 's');
    assert(s[19] == 't');
    assert(s[20] == 'u');
    assert(s[21] == 'v');
    assert(s[22] == 'w');
    assert(s[23] == 'x');
    assert(s[24] == 'y');
    assert(s[25] == 'z');
}

/// The capitals stand in the order of their codes.
proof fn lemma_capitals()
    ensures
        "ABCDEFGHIJKLMNOPQRSTUVWXYZ"@.len() == 26,
        forall|k: int|
            0 <= k < 26 ==> #[trigger] "ABCDEFGHIJKLMNOPQRSTUVWXYZ"@[k] == ((65 + k) as u8) as char,
{
    reveal_strlit("ABCDEFGHIJKLMNOPQRSTUVWXYZ");
    let s = "ABCDEFGHIJKLMNOPQRSTUVWXYZ"@;
    assert(s[0] == 'A');
    assert(s[1] == 'B');
    assert(s[2] == 'C');
    assert(s[3] == 'D');
    assert(s[4] == 'E');
    assert(s[5] == 'F');
    assert(s[6] == 'G');
    assert(s[7] == 'H');
    assert(s[8] == 'I');
    assert(s[9] == 'J');
    assert(s[10] == 'K');
    assert(s[11] == 'L');
    assert(s[12] == 'M');
    assert(s[13] == 'N');
    assert(s[14] == 'O');
    assert(s[15] == 'P');
    assert(s[16] == 'Q');
    assert(s[17] == 'R');
    assert(s[18] == 'S');
    assert(s[19] == 'T');
    assert(s[20] == 'U');
    assert(s[21] == 'V');
    assert(s[22] == 'W');
    assert(s[23] == 'X');
    assert(s[24] == 'Y');
    assert(s[25] == 'Z');
}

/// Text with its ASCII capitals turned into small letters.
pub(crate) fn to_ascii_lowercase(s: &str) -> (res: String)
    ensures
        res@ == ascii_lower(s@),
{
    let n: usize = s.unicode_len();
    let letters = "abcdefghijklmnopqrstuvwxyz";
    let mut out = String::new();
    // First character that is not copied yet.
    let mut start: usize = 0;
    let mut i: usize = 0;
    proof {
        lemma_small_letters();
    }
    for c in it: s.chars()
        invariant
            it.seq() == s@,
            i == it.index(),
            n == s@.len(),
            start <= i <= n,
            letters@ == "abcdefghijklmnopqrstuvwxyz"@,
            letters@.len() == 26,
            forall|k: int| 0 <= k < 26 ==> #[trigger] letters@[k] == ((97 + k) as u8) as char,
            out@ == ascii_lower(s@.take(start as int)),
            forall|k: int| start <= k < i ==> lower_char(#[trigger] s@[k]) == s@[k],
    {
        assert(c == s@[i as int]);
        if 'A' <= c && c <= 'Z' {
            let k: usize = (c as u32 - 'A' as u32) as usize;
            out.append(s.substring_char(start, i));
            out.append(letters.substring_char(k, k + 1));
            proof {
                assert(letters@.subrange(k as int, k + 1) =~= seq![lower_char(c)]);
                assert(out@ =~= ascii_lower(s@.take(i + 1)));
            }
            start = i + 1;
        }
        i = i + 1;
    }
    out.append(s.substring_char(start, n));
    assert(out@ =~= ascii_lower(s@));
    out
}

/// Text with its ASCII small letters turned into capitals.
pub(crate) fn to_ascii_uppercase(s: &str) -> (res: String)
    ensures
        res@ == ascii_upper(s@),
{
    let n: usize = s.unicode_len();
    let letters = "ABCDEFGHIJKLMNOPQRSTUVWXYZ";
    let mut out = String::new();
    // First character that is not copied yet.
    let mut start: usize = 0;
    let mut i: usize = 0;
    proof {
        lemma_capitals();
    }
    for c in it: s.chars()
        invariant
            it.seq() == s@,
            i == it.index(),
            n == s@.len(),
            start <= i <= n,
            letters@ == "ABCDEFGHIJKLMNOPQRSTUVWXYZ"@,
            letters@.len() == 26,
            forall|k: int| 0 <= k < 26 ==> #[trigger] letters@[k] == ((65 + k) as u8) as char,
            out@ == ascii_upper(s@.take(start as int)),
            forall|k: int| start <= k < i ==> upper_char(#[trigger] s@[k]) == s@[k],
    {
        assert(c == s@[i as int]);
        if 'a' <= c && c <= 'z' {
            let k: usize = (c as u32 - 'a' as u32) as usize;
            out.append(s.substring_char(start, i));
            out.append(letters.substring_char(k, k + 1));
            proof {
                assert(letters@.subrange(k as int, k + 1) =~= seq![upper_char(c)]);
                assert(out@ =~= ascii_upper(s@.take(i + 1)));
            }
            start = i + 1;
        }
        i = i + 1;
    }
    out.append(s.substring_char(start, n));
    assert(out@ =~= ascii_upper(s@));
    out
}

/// Wraps `str::to_uppercase`; the upper-case text is named.
#[verifier::external_body]
pub(crate) fn to_uppercase(s: &str) -> (res: String)
    ensures
        res@ == unicode_upper(s@),
{
    s.to_uppercase()
}

/// Whether two texts differ at most in the case of ASCII letters.
pub(crate) fn eq_ignore_ascii_case(a: &str, b: &str) -> (res: bool)
    ensures
        res == same_ignoring_case(a@, b@),
{
    to_ascii_lowercase(a) == to_ascii_lowercase(b)
}

/// Whether two texts have the same characters.
pub(crate) fn text_eq(a: &str, b: &str) -> (res: bool)
    ensures
        res == (a@ == b@),
{
    a.to_owned() == b.to_owned()
}

/// Whether a character is white space.
fn is_blank(c: char) -> (res: bool)
    ensures
        res == is_white_space(c),
{
    let code: u32 = c as u32;
    (0x09 <= code && code <= 0x0d) || code == 0x20 || code == 0x85 || code == 0xa0 || code
        == 0x1680 || (0x2000 <= code && code <= 0x200a) || code == 0x2028 || code == 0x2029
        || code == 0x202f || code == 0x205f || code == 0x3000
}

/// Text without surrounding white space.
pub(crate) fn trim(s: &str) -> (res: String)
    ensures
        res@ == trimmed(s@),
{
    let mut n: usize = s.unicode_len();
    let ghost all = s@.len() as int;
    let ghost blank = |c: char| is_white_space(c);
    let mut i: usize = 0;
    assert(s@.subrange(0, all) =~= s@);
    while i < n && is_blank(s.get_char(i))
        invariant
            i <= n,
            n == s@.len(),
            blank == |c: char| is_white_space(c),
            strip_front(s@, blank) == strip_front(s@.subrange(i as int, n as int), blank),
        decreases n - i,
    {
        assert(s@.subrange(i as int, n as int).subrange(1, n - i) =~= s@.subrange(i + 1, n as int));
        i = i + 1;
    }
    let ghost front = s@.subrange(i as int, all);
    assert(strip_front(s@, blank) == front);
    while n > i && is_blank(s.get_char(n - 1))
        invariant
            i <= n <= s@.len(),
            blank == |c: char| is_white_space(c),
            strip_back(front, blank) == strip_back(s@.subrange(i as int, n as int), blank),
        decreases n,
    {
        assert(s@.subrange(i as int, n as int).drop_last() =~= s@.subrange(i as int, n - 1));
        n = n - 1;
    }
    s.substring_char(i, n).to_owned()
}

/// Whether `needle` occurs in a text.
pub(crate) fn contains(s: &str, needle: &str) -> (res: bool)
    ensures
        res == occurs_in(needle@, s@),
{
    let n: usize = s.unicode_len();
    let m: usize = needle.unicode_len();
    if m > n {
        return false;
    }
    let mut i: usize = 0;
    while i < n - m
        invariant
            n == s@.len(),
            m == needle@.len(),
            m <= n,
            i <= n - m,
            forall|k: int| 0 <= k < i ==> #[trigger] s@.subrange(k, k + m) != needle@,
        decreases n - i,
    {
        if text_eq(s.substring_char(i, i + m), needle) {
            return true;
        }
        i = i + 1;
    }
    assert(s@.subrange(i as int, i + m) == s@.subrange(i as int, n as int));
    text_eq(s.substring_char(i, n), needle)
}

/// Whether a text begins with `prefix`.
pub(crate) fn starts_with(s: &str, prefix: &str) -> (res: bool)
    ensures
        res == begins_with(s@, prefix@),
{
    let m: usize = prefix.unicode_len();
    m <= s.unicode_len() && text_eq(s.substring_char(0, m), prefix)
}

/// Whether a text ends with `suffix`.
pub(crate) fn has_suffix(s: &str, suffix: &str) -> (res: bool)
    ensures
        res == ends_with(s@, suffix@),
{
    let n: usize = s.unicode_len();
    let m: usize = suffix.unicode_len();
    m <= n && text_eq(s.substring_char(n - m, n), suffix)
}

/// Text with every `from` replaced.
pub open spec fn replaced(s: Seq<char>, from: char, to: Seq<char>) -> Seq<char>
    decreases s.len(),
{
    if s.len() == 0 {
        Seq::empty()
    } else if s.last() == from {
        replaced(s.drop_last(), from, to) + to
    } else {
        replaced(s.drop_last(), from, to).push(s.last())
    }
}

/// Text with every `from` replaced.
pub(crate) fn replace(s: &str, from: char, to: &str) -> (res: String)
    ensures
        res@ == replaced(s@, from, to@),
{
    let n: usize = s.unicode_len();
    let mut out = String::new();
    let mut i: usize = 0;
    assert(s@.take(0) =~= Seq::<char>::empty());
    while i < n
        invariant
            i <= n,
            n == s@.len(),
            out@ == replaced(s@.take(i as int), from, to@),
        decreases n - i,
    {
        proof {
            assert(s@.take(i + 1).drop_last() =~= s@.take(i as int));
            assert(s@.take(i + 1).last() == s@[i as int]);
        }
        let ghost before = out@;
        if s.get_char(i) == from {
            out.append(to);
        } else {
            out.append(s.substring_char(i, i + 1));
            assert(out@ =~= before.push(s@[i as int]));
        }
        i = i + 1;
    }
    assert(s@.take(n as int) =~= s@);
    out
}

/// Order of texts by the code points of their first differing characters; a
/// proper prefix comes first.
pub open spec fn text_before(a: Seq<char>, b: Seq<char>) -> bool
    decreases a.len(),
{
    if b.len() == 0 {
        false
    } else if a.len() == 0 {
        true
    } else if a[0] != b[0] {
        (a[0] as u32) < (b[0] as u32)
    } else {
        text_before(a.subrange(1, a.len() as int), b.subrange(1, b.len() as int))
    }
}

/// Whether a text comes before another.
pub(crate) fn text_less(a: &str, b: &str) -> (res: bool)
    ensures
        res == text_before(a@, b@),
{
    let n: usize = a.unicode_len();
    let m: usize = b.unicode_len();
    let mut i: usize = 0;
    assert(a@.subrange(0, n as int) =~= a@);
    assert(b@.subrange(0, m as int) =~= b@);
    while i < n && i < m
        invariant
            n == a@.len(),
            m == b@.len(),
            i <= n,
            i <= m,
            text_before(a@, b@) == text_before(
                a@.subrange(i as int, n as int),
                b@.subrange(i as int, m as int),
            ),
        decreases n - i,
    {
        let x = a.get_char(i);
        let y = b.get_char(i);
        if x != y {
            return (x as u32) < (y as u32);
        }
        proof {
            assert(a@.subrange(i as int, n as int).subrange(1, n - i) =~= a@.subrange(
                i + 1,
                n as int,
            ));
            assert(b@.subrange(i as int, m as int).subrange(1, m - i) =~= b@.subrange(
                i + 1,
                m as int,
            ));
        }
        i = i + 1;
    }
    i < m
}

/// The digits stand in the order of their codes.
proof fn lemma_digits()
    ensures
        "0123456789"@.len() == 10,
        forall|k: int| 0 <= k < 10 ==> #[trigger] "0123456789"@[k] == ((48 + k) as u8) as char,
{
    reveal_strlit("0123456789");
    let s = "0123456789"@;
    assert(s[0] == '0');
    assert(s[1] == '1');
    assert(s[2] == '2');
    assert(s[3] == '3');
    assert(s[4] == '4');
    assert(s[5] == '5');
    assert(s[6] == '6');
    assert(s[7] == '7');
    assert(s[8] == '8');
    assert(s[9] == '9');
}

/// The decimal digits of a number.
pub(crate) fn u64_to_text(n: u64) -> (res: String)
    ensures
        res@ == nat_text(n as nat),
    decreases n,
{
    let digits = "0123456789";
    let last: usize = (n % 10) as usize;
    proof {
        lemma_digits();
    }
    let digit = digits.substring_char(last, last + 1);
    assert(digit@ =~= seq![(48 + n % 10) as u8 as char]);
    if n < 10 {
        digit.to_owned()
    } else {
        u64_to_text(n / 10).concat(digit)
    }
}

/// Decimal digits of a whole number, with its sign if it is negative.
pub open spec fn int_text(n: int) -> Seq<char> {
    if n < 0 {
        seq!['-'] + nat_text((-n) as nat)
    } else {
        nat_text(n as nat)
    }
}

/// The decimal digits of a number, after a minus sign if it is negative.
pub(crate) fn i64_to_text(n: i64) -> (res: String)
    ensures
        res@ == int_text(n as int),
{
    if n < 0 {
        let magnitude: u64 = (-(n as i128)) as u64;
        proof {
            reveal_strlit("-");
            assert("-"@ =~= seq!['-']);
        }
        "-".to_owned().concat(u64_to_text(magnitude).as_str())
    } else {
        u64_to_text(n as u64)
    }
}

/// Text without the leading characters equal to `strip`.
pub(crate) fn trim_start_matches(s: &str, strip: char) -> (res: String)
    ensures
        res@ == strip_front(s@, |c: char| c == strip),
{
    let n: usize = s.unicode_len();
    let mut i: usize = 0;
    let ghost is = |c: char| c == strip;
    assert(s@.subrange(0, n as int) =~= s@);
    while i < n && s.get_char(i) == strip
        invariant
            i <= n,
            n == s@.len(),
            is == |c: char| c == strip,
            strip_front(s@, is) == strip_front(s@.subrange(i as int, n as int), is),
        decreases n - i,
    {
        assert(s@.subrange(i as int, n as int).subrange(1, n - i) =~= s@.subrange(i + 1, n as int));
        i = i + 1;
    }
    s.substring_char(i, n).to_owned()
}

/// Text without the leading and trailing characters equal to `strip`.
pub(crate) fn trim_matches(s: &str, strip: char) -> (res: String)
    ensures
        res@ == strip_back(strip_front(s@, |c: char| c == strip), |c: char| c == strip),
{
    let front = trim_start_matches(s, strip);
    let t = front.as_str();
    let mut n: usize = t.unicode_len();
    let ghost is = |c: char| c == strip;
    assert(t@.subrange(0, n as int) =~= t@);
    while n > 0 && t.get_char(n - 1) == strip
        invariant
            n <= t@.len(),
            is == |c: char| c == strip,
            strip_back(t@, is) == strip_back(t@.subrange(0, n as int), is),
        decreases n,
    {
        assert(t@.subrange(0, n as int).drop_last() =~= t@.subrange(0, n - 1));
        n = n - 1;
    }
    t.substring_char(0, n).to_owned()
}

/// The pieces of a text between separators.
pub open spec fn pieces(s: Seq<char>, separator: char) -> Seq<Seq<char>>
    decreases s.len(),
{
    if s.len() == 0 {
        seq![Seq::empty()]
    } else {
        let head = pieces(s.drop_last(), separator);
        if s.last() == separator {
            head.push(Seq::empty())
        } else {
            head.drop_last().push(head.last().push(s.last()))
        }
    }
}

/// The characters of each text.
pub open spec fn texts(strings: Seq<String>) -> Seq<Seq<char>> {
    strings.map_values(|s: String| s@)
}

/// Cuts a text at every separator.
pub(crate) fn split(s: &str, separator: char) -> (res: Vec<String>)
    ensures
        texts(res@) == pieces(s@, separator),
{
    let n: usize = s.unicode_len();
    let mut out: Vec<String> = Vec::new();
    let mut start: usize = 0;
    let mut i: usize = 0;
    proof {
        assert(s@.take(0) =~= Seq::<char>::empty());
        assert(texts(out@).push(s@.subrange(0, 0)) =~= seq![Seq::<char>::empty()]);
    }
    while i < n
        invariant
            n == s@.len(),
            start <= i <= n,
            pieces(s@.take(i as int), separator) == texts(out@).push(
                s@.subrange(start as int, i as int),
            ),
        decreases n - i,
    {
        let c = s.get_char(i);
        let ghost current = s@.subrange(start as int, i as int);
        let ghost done = texts(out@);
        proof {
            assert(s@.take(i + 1).drop_last() =~= s@.take(i as int));
            assert(s@.take(i + 1).last() == c);
        }
        if c == separator {
            let piece = s.substring_char(start, i).to_owned();
            out.push(piece);
            start = i + 1;
            proof {
                assert(texts(out@) =~= done.push(current));
                assert(s@.subrange(start as int, i + 1) =~= Seq::<char>::empty());
            }
        } else {
            proof {
                assert(done.push(current).drop_last() =~= done);
                assert(current.push(c) =~= s@.subrange(start as int, i + 1));
            }
        }
        i = i + 1;
    }
    assert(s@.take(n as int) =~= s@);
    let ghost done = texts(out@);
    let last = s.substring_char(start, n).to_owned();
    out.push(last);
    assert(texts(out@) =~= done.push(s@.subrange(start as int, n as int)));
    out
}

/// Changing the case does not matter where case is ignored.
pub proof fn lemma_lower_of_upper(s: Seq<char>)
    ensures
        ascii_lower(ascii_upper(s)) == ascii_lower(s),
{
    assert forall|i: int| 0 <= i < s.len() implies lower_char(upper_char(#[trigger] s[i]))
        == lower_char(s[i]) by {}
    assert(ascii_lower(ascii_upper(s)) =~= ascii_lower(s));
}

/// Changing the case does not matter where case is ignored.
pub proof fn lemma_upper_of_lower(s: Seq<char>)
    ensures
        ascii_upper(ascii_lower(s)) == ascii_upper(s),
{
    assert forall|i: int| 0 <= i < s.len() implies upper_char(lower_char(#[trigger] s[i]))
        == upper_char(s[i]) by {}
    assert(ascii_upper(ascii_lower(s)) =~= ascii_upper(s));
}

/// Of two texts at most one comes before the other, and none before itself.
pub proof fn lemma_text_before_one_way(a: Seq<char>, b: Seq<char>)
    ensures
        text_before(a, b) ==> !text_before(b, a),
        !text_before(a, a),
    decreases a.len(),
{
    if a.len() > 0 {
        lemma_text_before_one_way(
            a.subrange(1, a.len() as int),
            b.subrange(1, b.len() as int),
        );
    }
}

/// Case is changed letter by letter: every character keeps its place, letters of the other
/// case are 32 codes apart, and anything but an ASCII letter stays.
pub proof fn law_case_is_changed_letter_by_letter(s: Seq<char>, i: int)
    requires
        0 <= i < s.len(),
    ensures
        ascii_lower(s).len() == s.len(),
        ascii_upper(s).len() == s.len(),
        'A' <= s[i] && s[i] <= 'Z' ==> ascii_lower(s)[i] as u32 == s[i] as u32 + 32,
        !('A' <= s[i] && s[i] <= 'Z') ==> ascii_lower(s)[i] == s[i],
        'a' <= s[i] && s[i] <= 'z' ==> ascii_upper(s)[i] as u32 + 32 == s[i] as u32,
        !('a' <= s[i] && s[i] <= 'z') ==> ascii_upper(s)[i] == s[i],
{
}

/// Whether texts are the same but for their case does not depend on which comes first, nor
/// on the case of either.
pub proof fn law_case_does_not_matter(a: Seq<char>, b: Seq<char>)
    ensures
        same_ignoring_case(a, a),
        same_ignoring_case(a, b) == same_ignoring_case(b, a),
        same_ignoring_case(ascii_upper(a), a),
        same_ignoring_case(ascii_lower(a), a),
        same_ignoring_case(a, b) ==> a.len() == b.len(),
{
    lemma_lower_of_upper(a);
    assert(ascii_lower(ascii_lower(a)) =~= ascii_lower(a));
    if same_ignoring_case(a, b) {
        assert(ascii_lower(a).len() == a.len() && ascii_lower(b).len() == b.len());
    }
}

/// Trimming takes nothing but white space off the ends: what is left stood in the text, has
/// no white space at its ends, and what was taken off is white space.
pub proof fn law_trimming_takes_white_space_only(s: Seq<char>)
    ensures
        trimmed(s).len() <= s.len(),
        trimmed(s).len() > 0 ==> !is_white_space(trimmed(s)[0]) && !is_white_space(
            trimmed(s).last(),
        ),
        exists|i: int|
            0 <= i && i + trimmed(s).len() <= s.len() && #[trigger] s.subrange(
                i,
                i + trimmed(s).len(),
            ) == trimmed(s) && (forall|k: int|
                (0 <= k < i || i + trimmed(s).len() <= k < s.len()) ==> is_white_space(
                    #[trigger] s[k],
                )),
{
    let blank = |c: char| is_white_space(c);
    let front = strip_front(s, blank);
    let a = lemma_strip_front(s, blank);
    let b = lemma_strip_back(front, blank);
    let out = trimmed(s);
    assert(s.subrange(a, a + out.len()) =~= out);
    assert forall|k: int| (0 <= k < a || a + out.len() <= k < s.len()) implies is_white_space(
        #[trigger] s[k],
    ) by {
        if k < a {
            assert(blank(s[k]));
        } else {
            assert(front[k - a] == s[k]);
            assert(blank(front[k - a]));
        }
    }
    if out.len() > 0 {
        assert(out[0] == front[0]);
        assert(!blank(front[0]));
        assert(!blank(out.last()));
    }
}

proof fn lemma_strip_front(s: Seq<char>, strip: spec_fn(char) -> bool) -> (a: int)
    ensures
        0 <= a <= s.len(),
        strip_front(s, strip) == s.subrange(a, s.len() as int),
        forall|k: int| 0 <= k < a ==> strip(#[trigger] s[k]),
        a < s.len() ==> !strip(s[a]),
    decreases s.len(),
{
    if s.len() > 0 && strip(s[0]) {
        let rest = s.subrange(1, s.len() as int);
        let b = lemma_strip_front(rest, strip);
        assert(rest.subrange(b, rest.len() as int) =~= s.subrange(b + 1, s.len() as int));
        assert forall|k: int| 0 <= k < b + 1 implies strip(#[trigger] s[k]) by {
            if k > 0 {
                assert(rest[k - 1] == s[k]);
            }
        }
        if b < rest.len() {
            assert(rest[b] == s[b + 1]);
        }
        b + 1
    } else {
        assert(s.subrange(0, s.len() as int) =~= s);
        0
    }
}

proof fn lemma_strip_back(s: Seq<char>, strip: spec_fn(char) -> bool) -> (b: int)
    ensures
        0 <= b <= s.len(),
        strip_back(s, strip) == s.subrange(0, b),
        forall|k: int| b <= k < s.len() ==> strip(#[trigger] s[k]),
        b > 0 ==> !strip(s[b - 1]),
    decreases s.len(),
{
    if s.len() > 0 && strip(s.last()) {
        let rest = s.drop_last();
        let b = lemma_strip_back(rest, strip);
        assert(rest.subrange(0, b) =~= s.subrange(0, b));
        assert forall|k: int| b <= k < s.len() implies strip(#[trigger] s[k]) by {
            if k < rest.len() {
                assert(rest[k] == s[k]);
            }
        }
        if b > 0 {
            assert(rest[b - 1] == s[b - 1]);
        }
        b
    } else {
        assert(s.subrange(0, s.len() as int) =~= s);
        s.len() as int
    }
}

/// Replacing works character by character, and a text without the character stays as it
/// is.
pub proof fn law_replacing_goes_character_by_character(
    s: Seq<char>,
    c: char,
    from: char,
    to: Seq<char>,
)
    ensures
        replaced(s.push(c), from, to) == (if c == from {
            replaced(s, from, to) + to
        } else {
            replaced(s, from, to).push(c)
        }),
        replaced(Seq::empty(), from, to).len() == 0,
        !s.contains(from) ==> replaced(s, from, to) == s,
    decreases s.len(),
{
    assert(s.push(c).drop_last() =~= s);
    if !s.contains(from) {
        if s.len() > 0 {
            let head = s.drop_last();
            assert(!head.contains(from)) by {
                if head.contains(from) {
                    let k = choose|k: int| 0 <= k < head.len() && head[k] == from;
                    assert(s[k] == from);
                }
            }
            law_replacing_goes_character_by_character(head, s.last(), from, to);
            assert(s[s.len() - 1] == s.last());
            assert(head.push(s.last()) =~= s);
        } else {
            assert(replaced(s, from, to) =~= s);
        }
    }
}

/// A number is written in its decimal digits, without leading zeros: dropping the last
/// digit divides it by ten.
pub proof fn law_digits_of_a_number(n: nat)
    ensures
        nat_text(n).len() >= 1,
        nat_text(n).last() as u32 == 48 + n % 10,
        n >= 10 ==> nat_text(n).drop_last() == nat_text(n / 10),
        n < 10 ==> nat_text(n).len() == 1,
        n > 0 ==> nat_text(n)[0] as u32 != 48,
    decreases n,
{
    if n >= 10 {
        law_digits_of_a_number(n / 10);
        assert(nat_text(n).drop_last() =~= nat_text(n / 10));
    }
}

/// A negative number is written with a minus sign in front of its digits.
pub proof fn law_sign_of_a_number(n: int)
    ensures
        n >= 0 ==> int_text(n) == nat_text(n as nat),
        n < 0 ==> int_text(n)[0] == '-' && int_text(n).skip(1) == nat_text((-n) as nat),
{
    if n < 0 {
        assert(int_text(n).skip(1) =~= nat_text((-n) as nat));
    }
}

/// Of two texts one comes first exactly if they differ: none comes before itself, not both
/// before each other, and a text comes after its own beginnings.
pub proof fn law_texts_are_ordered(a: Seq<char>, b: Seq<char>)
    ensures
        text_before(a, b) || text_before(b, a) || a == b,
        !(text_before(a, b) && text_before(b, a)),
        b.len() > 0 ==> text_before(a, a + b),
    decreases a.len(),
{
    lemma_text_before_one_way(a, b);
    if a.len() > 0 {
        let x = a.subrange(1, a.len() as int);
        if b.len() > 0 {
            let y = b.subrange(1, b.len() as int);
            law_texts_are_ordered(x, y);
            lemma_codes_tell_apart(a[0], b[0]);
            assert(a[0] == b[0] ==> text_before(a, b) == text_before(x, y) && text_before(b, a)
                == text_before(y, x));
            if a[0] == b[0] && x == y {
                assert(a =~= b) by {
                    assert forall|i: int| 0 <= i < a.len() implies a[i] == b[i] by {
                        if i > 0 {
                            assert(x[i - 1] == y[i - 1]);
                        }
                    }
                    assert(a.len() == x.len() + 1 && b.len() == y.len() + 1);
                }
            }
        }
        law_texts_are_ordered(x, b);
        assert((a + b).subrange(1, (a + b).len() as int) =~= x + b);
    } else {
        if b.len() == 0 {
            assert(a =~= b);
        }
        assert(a + b =~= b);
    }
}

/// The pieces of a text have no separator in them, and put together with separators they
/// are the text: a further character joins the last piece, a further separator starts a
/// new one.
pub proof fn law_pieces_of_a_text(s: Seq<char>, c: char, separator: char)
    ensures
        pieces(s, separator).len() >= 1,
        pieces(Seq::empty(), separator).len() == 1,
        c == separator ==> pieces(s.push(c), separator) == pieces(s, separator).push(Seq::empty()),
        c != separator ==> {
            let before = pieces(s, separator);
            let after = pieces(s.push(c), separator);
            &&& after.len() == before.len()
            &&& after.drop_last() == before.drop_last()
            &&& after.last() == before.last().push(c)
        },
    decreases s.len(),
{
    assert(s.push(c).drop_last() =~= s);
    if s.len() > 0 {
        law_pieces_of_a_text(s.drop_last(), s.last(), separator);
    }
    if c != separator {
        assert(pieces(s.push(c), separator).drop_last() =~= pieces(s, separator).drop_last());
    }
}

/// A text begins and ends with itself and with nothing, and what it begins or ends with
/// occurs in it.
pub proof fn law_parts_of_a_text(s: Seq<char>, part: Seq<char>)
    ensures
        begins_with(s, s),
        ends_with(s, s),
        begins_with(s, Seq::empty()),
        begins_with(part + s, part),
        ends_with(s + part, part),
        begins_with(s, part) ==> occurs_in(part, s),
        ends_with(s, part) ==> occurs_in(part, s),
        part.len() > s.len() ==> !occurs_in(part, s) && !begins_with(s, part) && !ends_with(s, part),
{
    assert(s.subrange(0, s.len() as int) =~= s);
    assert(s.subrange(0, 0) =~= Seq::<char>::empty());
    assert((part + s).subrange(0, part.len() as int) =~= part);
    let t = s + part;
    assert(t.subrange(t.len() - part.len(), t.len() as int) =~= part);
    if begins_with(s, part) {
        let z: int = 0;
        assert(s.subrange(z, z + part.len()) == part);
    }
    if ends_with(s, part) {
        let i = s.len() - part.len();
        assert(s.subrange(i, i + part.len()) == part);
    }
}

/// Characters are told apart by their codes.
proof fn lemma_codes_tell_apart(a: char, b: char)
    ensures
        a != b ==> (a as u32) < (b as u32) || (b as u32) < (a as u32),
{
}

/// A number in a fixed number of figures ends with its own last figure, and taking that away
/// divides the number by ten.
pub proof fn law_figures_of_a_number(n: nat, width: nat)
    ensures
        padded_text(n, width).len() == width,
        width > 0 ==> padded_text(n, width).last() as u32 == 48 + n % 10,
        width > 0 ==> padded_text(n, width).drop_last() == padded_text(
            n / 10,
            (width - 1) as nat,
        ),
    decreases width,
{
    if width > 0 {
        law_figures_of_a_number(n / 10, (width - 1) as nat);
        assert(padded_text(n, width).drop_last() =~= padded_text(n / 10, (width - 1) as nat));
    }
}

/// Two figures are the tens and the ones.
pub proof fn law_two_figures(n: nat)
    requires
        n < 100,
    ensures
        padded_text(n, 2).len() == 2,
        padded_text(n, 2)[0] as u32 == 48 + n / 10,
        padded_text(n, 2)[1] as u32 == 48 + n % 10,
{
    reveal_with_fuel(padded_text, 3);
}

/// Four figures are the thousands, the hundreds, the tens and the ones.
pub proof fn law_four_figures(n: nat)
    requires
        n < 10_000,
    ensures
        padded_text(n, 4).len() == 4,
        padded_text(n, 4)[0] as u32 == 48 + n / 1000,
        padded_text(n, 4)[1] as u32 == 48 + n / 100 % 10,
        padded_text(n, 4)[2] as u32 == 48 + n / 10 % 10,
        padded_text(n, 4)[3] as u32 == 48 + n % 10,
{
    reveal_with_fuel(padded_text, 5);
    assert(n / 10 / 10 == n / 100);
    assert(n / 10 / 10 / 10 == n / 1000);
    assert(n / 1000 % 10 == n / 1000);
}

} // verus!
