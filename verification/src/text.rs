//! Character-level helpers on `str`, with the standard-library conversions
//! that the scanners rely on.
use vstd::prelude::*;
use vstd::utf8::*;

verus! {

/// The characters that `char::is_whitespace` accepts: the Unicode
/// `White_Space` property.
pub open spec fn is_ws(c: char) -> bool {
    ||| c == '\t' || c == '\n' || c == '\u{0B}' || c == '\u{0C}' || c == '\r' || c == ' '
    ||| c == '\u{85}' || c == '\u{A0}' || c == '\u{1680}'
    ||| ('\u{2000}' <= c && c <= '\u{200A}')
    ||| c == '\u{2028}' || c == '\u{2029}' || c == '\u{202F}' || c == '\u{205F}' || c == '\u{3000}'
}

/// `s` without its leading whitespace.
pub open spec fn trim_start_spec(s: Seq<char>) -> Seq<char>
    decreases s.len(),
{
    if s.len() > 0 && is_ws(s[0]) {
        trim_start_spec(s.drop_first())
    } else {
        s
    }
}

/// `s` without its trailing whitespace.
pub open spec fn trim_end_spec(s: Seq<char>) -> Seq<char>
    decreases s.len(),
{
    if s.len() > 0 && is_ws(s.last()) {
        trim_end_spec(s.drop_last())
    } else {
        s
    }
}

/// `s` without leading and trailing whitespace, as `str::trim` gives it.
pub open spec fn trim_spec(s: Seq<char>) -> Seq<char> {
    trim_end_spec(trim_start_spec(s))
}

pub fn is_whitespace(c: char) -> (b: bool)
    ensures
        b == is_ws(c),
{
    c == '\t' || c == '\n' || c == '\u{0B}' || c == '\u{0C}' || c == '\r' || c == ' '
        || c == '\u{85}' || c == '\u{A0}' || c == '\u{1680}' || ('\u{2000}' <= c && c
        <= '\u{200A}') || c == '\u{2028}' || c == '\u{2029}' || c == '\u{202F}' || c
        == '\u{205F}' || c == '\u{3000}'
}

proof fn lemma_trim_start_skip(s: Seq<char>, i: int)
    requires
        0 <= i <= s.len(),
        forall|k: int| 0 <= k < i ==> is_ws(#[trigger] s[k]),
    ensures
        trim_start_spec(s) == trim_start_spec(s.skip(i)),
    decreases i,
{
    if i > 0 {
        assert(s.skip(1) =~= s.drop_first());
        lemma_trim_start_skip(s.drop_first(), i - 1);
        assert(s.drop_first().skip(i - 1) =~= s.skip(i));
    } else {
        assert(s.skip(0) =~= s);
    }
}

proof fn lemma_trim_end_take(s: Seq<char>, j: int)
    requires
        0 <= j <= s.len(),
        forall|k: int| j <= k < s.len() ==> is_ws(#[trigger] s[k]),
    ensures
        trim_end_spec(s) == trim_end_spec(s.take(j)),
    decreases s.len() - j,
{
    if j < s.len() {
        lemma_trim_end_take(s.drop_last(), j);
        assert(s.drop_last().take(j) =~= s.take(j));
    } else {
        assert(s.take(j) =~= s);
    }
}

/// `s` with leading and trailing whitespace removed (`str::trim`).
pub fn trim_str(s: &str) -> (r: String)
    ensures
        r@ == trim_spec(s@),
{
    let len = s.unicode_len();
    let mut i: usize = 0;
    while i < len && is_whitespace(s.get_char(i))
        invariant
            len == s@.len(),
            i <= len,
            forall|k: int| 0 <= k < i ==> is_ws(#[trigger] s@[k]),
        decreases len - i,
    {
        i = i + 1;
    }
    proof {
        lemma_trim_start_skip(s@, i as int);
        if i < len {
            assert(!is_ws(s@.skip(i as int)[0]));
        }
    }
    let ghost t = s@.skip(i as int);
    assert(trim_start_spec(t) == t);
    let mut j: usize = len;
    while j > i && is_whitespace(s.get_char(j - 1))
        invariant
            len == s@.len(),
            i <= j <= len,
            t == s@.skip(i as int),
            forall|k: int| j <= k < len ==> is_ws(#[trigger] s@[k]),
        decreases j - i,
    {
        j = j - 1;
    }
    proof {
        lemma_trim_end_take(t, j - i);
        let u = t.take(j - i);
        if j > i {
            assert(u.last() == s@[j - 1]);
        }
        assert(u =~= s@.subrange(i as int, j as int));
    }
    let sub = s.substring_char(i, j);
    String::from_str(sub)
}

/// Whether two strings hold the same characters.
pub fn str_eq(a: &str, b: &str) -> (r: bool)
    ensures
        r == (a@ == b@),
{
    let n = a.unicode_len();
    if n != b.unicode_len() {
        return false;
    }
    let mut i: usize = 0;
    while i < n
        invariant
            n == a@.len(),
            n == b@.len(),
            i <= n,
            forall|k: int| 0 <= k < i ==> a@[k] == b@[k],
        decreases n - i,
    {
        if a.get_char(i) != b.get_char(i) {
            return false;
        }
        i = i + 1;
    }
    assert(a@ =~= b@);
    true
}

/// What `str::to_lowercase` gives for a string: the Unicode lowercase
/// mapping, which takes tables to state.
pub uninterp spec fn lowercase(s: Seq<char>) -> Seq<char>;

/// Whether `c` is a lowercase ASCII letter or an ASCII digit: a character
/// that has no lowercase mapping of its own.
pub open spec fn is_lower_alnum(c: char) -> bool {
    ('a' <= c && c <= 'z') || ('0' <= c && c <= '9')
}

/// The lowercase of an ASCII character: 'A' to 'Z' become 'a' to 'z', the
/// rest stay as they are.
pub open spec fn ascii_lower(c: char) -> char {
    if 'A' <= c && c <= 'Z' {
        ((c as u32) + 32) as char
    } else {
        c
    }
}

/// The capital of an ASCII character: 'a' to 'z' become 'A' to 'Z', the
/// rest stay as they are.
pub open spec fn ascii_upper(c: char) -> char {
    if 'a' <= c && c <= 'z' {
        ((c as u32) - 32) as char
    } else {
        c
    }
}

/// Whether every character of `s` is ASCII.
pub open spec fn all_ascii(s: Seq<char>) -> bool {
    forall|i: int| 0 <= i < s.len() ==> (#[trigger] s[i] as u32) < 128
}

/// A word of lowercase ASCII letters and digits, written in capitals, is
/// ASCII, and lowering its capitals gives the word back.
pub proof fn lemma_capitals_lower_back(w: Seq<char>)
    requires
        forall|i: int| 0 <= i < w.len() ==> is_lower_alnum(#[trigger] w[i]),
    ensures
        all_ascii(w),
        all_ascii(w.map_values(|c: char| ascii_upper(c))),
        w.map_values(|c: char| ascii_upper(c)).map_values(|c: char| ascii_lower(c)) == w,
{
    let u = w.map_values(|c: char| ascii_upper(c));
    assert forall|i: int| 0 <= i < w.len() implies (#[trigger] u[i] as u32) < 128 && ascii_lower(u[i]) == w[i] by {
        let c = w[i];
        if 'a' <= c && c <= 'z' {
            assert(((c as u32) - 32) as char as u32 == (c as u32) - 32);
        }
    }
    assert(u.map_values(|c: char| ascii_lower(c)) =~= w);
}

/// `str::to_lowercase`. Its result is named by `lowercase`. What is stated
/// of it is the ASCII part of the Unicode mapping: a string of ASCII
/// characters comes back with 'A' to 'Z' lowered and every other character
/// as it was. The mapping of other characters is left unsaid.
#[verifier::external_body]
pub fn to_lowercase(s: &str) -> (r: String)
    ensures
        r@ == lowercase(s@),
        (forall|i: int| 0 <= i < s@.len() ==> is_lower_alnum(#[trigger] s@[i])) ==> r@ == s@,
        all_ascii(s@) ==> r@ == s@.map_values(|c: char| ascii_lower(c)),
{
    s.to_lowercase()
}

/// `std::str::from_utf8`: the bytes as a string when they are valid UTF-8.
#[verifier::external_body]
pub fn utf8_str<'a>(b: &'a [u8]) -> (r: Option<&'a str>)
    ensures
        r is Some <==> valid_utf8(b@),
        r matches Some(s) ==> s@ == decode_utf8(b@),
{
    std::str::from_utf8(b).ok()
}

/// The characters that UTF-16 code units decode to, with U+FFFD for each
/// unit of an unpaired surrogate: a unit outside 0xD800 to 0xDFFF is its own
/// character; a lead surrogate (to 0xDBFF) followed by a trail surrogate
/// (0xDC00 to 0xDFFF) is the character they encode together; any other
/// surrogate unit is U+FFFD, and decoding goes on with the next unit.
pub open spec fn utf16_lossy(u: Seq<u16>) -> Seq<char>
    decreases u.len(),
{
    if u.len() == 0 {
        seq![]
    } else if u[0] < 0xD800 || u[0] > 0xDFFF {
        seq![u[0] as char] + utf16_lossy(u.skip(1))
    } else if u[0] <= 0xDBFF && u.len() >= 2 && 0xDC00 <= u[1] && u[1] <= 0xDFFF {
        seq![(0x10000 + (u[0] - 0xD800) * 0x400 + (u[1] - 0xDC00)) as char] + utf16_lossy(u.skip(2))
    } else {
        seq!['\u{FFFD}'] + utf16_lossy(u.skip(1))
    }
}

/// `String::from_utf16_lossy`: decodes UTF-16 as `utf16_lossy` states,
/// which is how the standard library documents the decoding (unpaired
/// surrogates replaced by U+FFFD).
#[verifier::external_body]
pub fn string_from_utf16_lossy(units: &[u16]) -> (r: String)
    ensures
        r@ == utf16_lossy(units@),
{
    String::from_utf16_lossy(units)
}

/// The decimal digits of `n`, most significant first.
pub open spec fn decimal(n: nat) -> Seq<char>
    decreases n,
{
    if n < 10 {
        seq![(('0' as u8) + n) as char]
    } else {
        decimal(n / 10).push((('0' as u8) + (n % 10)) as char)
    }
}

/// `s` with `'0'` in front until it is at least `width` long.
pub open spec fn zero_pad(s: Seq<char>, width: nat) -> Seq<char>
    decreases width - s.len(),
{
    if s.len() >= width {
        s
    } else {
        zero_pad(seq!['0'] + s, width)
    }
}

/// The digit character of `d`, as a string.
fn digit_str(d: usize) -> (r: &'static str)
    requires
        d < 10,
    ensures
        r@ == seq![(('0' as u8) + d) as char],
{
    match d {
        0 => {
            proof {
                reveal_strlit("0");
            }
            "0"
        },
        1 => {
            proof {
                reveal_strlit("1");
            }
            "1"
        },
        2 => {
            proof {
                reveal_strlit("2");
            }
            "2"
        },
        3 => {
            proof {
                reveal_strlit("3");
            }
            "3"
        },
        4 => {
            proof {
                reveal_strlit("4");
            }
            "4"
        },
        5 => {
            proof {
                reveal_strlit("5");
            }
            "5"
        },
        6 => {
            proof {
                reveal_strlit("6");
            }
            "6"
        },
        7 => {
            proof {
                reveal_strlit("7");
            }
            "7"
        },
        8 => {
            proof {
                reveal_strlit("8");
            }
            "8"
        },
        _ => {
            proof {
                reveal_strlit("9");
            }
            "9"
        },
    }
}

/// Puts the decimal digits of `n` after `s`.
fn push_decimal(s: &mut String, n: usize)
    ensures
        final(s)@ == old(s)@ + decimal(n as nat),
    decreases n,
{
    if n < 10 {
        s.append(digit_str(n));
    } else {
        push_decimal(s, n / 10);
        s.append(digit_str(n % 10));
        proof {
            assert(decimal(n as nat) == decimal((n / 10) as nat).push((('0' as u8) + (n % 10)) as char));
        }
    }
}

/// Padding `s` with zeros to `width` puts `width - s.len()` zeros in front,
/// where `s` is shorter.
proof fn lemma_zero_pad(s: Seq<char>, width: nat)
    ensures
        zero_pad(s, width) == Seq::new(
            if s.len() >= width { 0nat } else { (width - s.len()) as nat },
            |i: int| '0',
        ) + s,
    decreases width - s.len(),
{
    if s.len() >= width {
        assert(Seq::new(0nat, |i: int| '0') + s =~= s);
    } else {
        lemma_zero_pad(seq!['0'] + s, width);
        let k = (width - s.len()) as nat;
        assert(Seq::new((k - 1) as nat, |i: int| '0') + (seq!['0'] + s) =~= Seq::new(k, |i: int| '0') + s);
    }
}

/// `n` in decimal, padded with zeros to six places (what `{:06}` formats).
pub fn decimal_width6(n: usize) -> (r: String)
    ensures
        r@ == zero_pad(decimal(n as nat), 6),
{
    let mut digits = String::new();
    push_decimal(&mut digits, n);
    assert(digits@ =~= decimal(n as nat));
    let len = digits.as_str().unicode_len();
    let mut r = String::new();
    let mut k: usize = 0;
    let pad: usize = if len < 6 { 6 - len } else { 0 };
    assert(r@ =~= Seq::new(0nat, |i: int| '0'));
    while k < pad
        invariant
            k <= pad,
            r@ == Seq::new(k as nat, |i: int| '0'),
        decreases pad - k,
    {
        r.append("0");
        k = k + 1;
        proof {
            reveal_strlit("0");
        }
        assert(r@ =~= Seq::new(k as nat, |i: int| '0'));
    }
    r.append(digits.as_str());
    proof {
        lemma_zero_pad(decimal(n as nat), 6);
    }
    r
}

} // verus!

verus! {

/// What follows the last `'.'` of `s`; all of `s` where there is none.
pub open spec fn last_segment(s: Seq<char>) -> Seq<char>
    decreases s.len(),
{
    if s.len() == 0 {
        s
    } else if s.last() == '.' {
        seq![]
    } else {
        last_segment(s.drop_last()).push(s.last())
    }
}

proof fn lemma_last_segment(s: Seq<char>, j: int)
    requires
        0 <= j <= s.len(),
        j == 0 || s[j - 1] == '.',
        forall|k: int| j <= k < s.len() ==> s[k] != '.',
    ensures
        last_segment(s) == s.skip(j),
    decreases s.len(),
{
    if s.len() == j {
        assert(s.skip(j) =~= seq![]);
        if j > 0 {
            assert(s.last() == '.');
        }
    } else {
        lemma_last_segment(s.drop_last(), j);
        assert(s.drop_last().skip(j).push(s.last()) =~= s.skip(j));
    }
}

/// What follows the last `'.'` of `s` (`s.rsplit('.').next()`).
pub fn after_last_dot(s: &str) -> (r: String)
    ensures
        r@ == last_segment(s@),
{
    let len = s.unicode_len();
    let mut j: usize = len;
    while j > 0 && s.get_char(j - 1) != '.'
        invariant
            len == s@.len(),
            j <= len,
            forall|k: int| j <= k < len ==> s@[k] != '.',
        decreases j,
    {
        j = j - 1;
    }
    proof {
        lemma_last_segment(s@, j as int);
        assert(s@.subrange(j as int, len as int) =~= s@.skip(j as int));
    }
    String::from_str(s.substring_char(j, len))
}

} // verus!

verus! {

/// The whitespace-separated words of `s` (`str::split_whitespace`).
pub open spec fn words(s: Seq<char>) -> Seq<Seq<char>>
    decreases s.len(),
{
    if s.len() == 0 {
        seq![]
    } else {
        let w = words(s.drop_last());
        if is_ws(s.last()) {
            w
        } else if s.len() >= 2 && !is_ws(s[s.len() - 2]) {
            w.update(w.len() - 1, w.last().push(s.last()))
        } else {
            w.push(seq![s.last()])
        }
    }
}

proof fn lemma_words_last(s: Seq<char>)
    requires
        s.len() > 0,
        !is_ws(s.last()),
    ensures
        words(s).len() > 0,
    decreases s.len(),
{
    if s.len() >= 2 && !is_ws(s[s.len() - 2]) {
        assert(s.drop_last().last() == s[s.len() - 2]);
        lemma_words_last(s.drop_last());
    }
}

/// The whitespace-separated words of `s`.
pub fn split_words(s: &str) -> (r: Vec<String>)
    ensures
        r@.len() == words(s@).len(),
        forall|i: int| 0 <= i < r@.len() ==> #[trigger] r@[i]@ == words(s@)[i],
{
    let len = s.unicode_len();
    let mut done: Vec<String> = Vec::new();
    let mut start: usize = 0;
    let mut in_word = false;
    let mut i: usize = 0;
    while i < len
        invariant
            len == s@.len(),
            start <= i <= len,
            in_word ==> start < i && !is_ws(s@[i - 1]),
            !in_word ==> (i == 0 || is_ws(s@[i - 1])),
            words(s@.take(i as int)).len() == done@.len() + if in_word { 1int } else { 0 },
            forall|j: int| 0 <= j < done@.len() ==> #[trigger] done@[j]@ == words(s@.take(i as int))[j],
            in_word ==> words(s@.take(i as int)).last() == s@.subrange(start as int, i as int),
        decreases len - i,
    {
        let c = s.get_char(i);
        proof {
            assert(s@.take(i + 1).drop_last() =~= s@.take(i as int));
            assert(s@.take(i + 1).last() == c);
            if i > 0 {
                assert(s@.take(i + 1)[i - 1] == s@[i - 1]);
            }
            if in_word {
                lemma_words_last(s@.take(i as int));
            }
        }
        if is_whitespace(c) {
            if in_word {
                done.push(String::from_str(s.substring_char(start, i)));
                in_word = false;
            }
        } else {
            if !in_word {
                start = i;
                in_word = true;
                proof {
                    assert(s@.subrange(start as int, i + 1) =~= seq![c]);
                }
            } else {
                proof {
                    assert(s@.subrange(start as int, i + 1) =~= s@.subrange(start as int, i as int).push(c));
                }
            }
        }
        i = i + 1;
    }
    if in_word {
        done.push(String::from_str(s.substring_char(start, len)));
    }
    proof {
        assert(s@.take(len as int) =~= s@);
    }
    done
}

/// Whether `s` begins with `pre`.
pub open spec fn has_prefix(s: Seq<char>, pre: Seq<char>) -> bool {
    pre.len() <= s.len() && s.take(pre.len() as int) == pre
}

/// Whether `s` begins with `pre` (`str::starts_with`).
pub fn starts_with_str(s: &str, pre: &str) -> (r: bool)
    ensures
        r == has_prefix(s@, pre@),
{
    let n = pre.unicode_len();
    if n > s.unicode_len() {
        return false;
    }
    let mut i: usize = 0;
    while i < n
        invariant
            n == pre@.len(),
            n <= s@.len(),
            i <= n,
            forall|k: int| 0 <= k < i ==> s@[k] == pre@[k],
        decreases n - i,
    {
        if s.get_char(i) != pre.get_char(i) {
            assert(s@.take(n as int)[i as int] != pre@[i as int]);
            return false;
        }
        i = i + 1;
    }
    assert(s@.take(n as int) =~= pre@);
    true
}

/// `s` with every leading copy of `pre` removed (`str::trim_start_matches`).
pub open spec fn strip_prefixes(s: Seq<char>, pre: Seq<char>) -> Seq<char>
    decreases s.len(),
{
    if pre.len() > 0 && has_prefix(s, pre) {
        strip_prefixes(s.skip(pre.len() as int), pre)
    } else {
        s
    }
}

/// `s` with every leading copy of `pre` removed.
pub fn trim_start_matches_str(s: &str, pre: &str) -> (r: String)
    ensures
        r@ == strip_prefixes(s@, pre@),
{
    let n = pre.unicode_len();
    let len = s.unicode_len();
    let mut cur = String::from_str(s);
    if n == 0 {
        return cur;
    }
    while starts_with_str(cur.as_str(), pre)
        invariant
            n == pre@.len(),
            n > 0,
            strip_prefixes(s@, pre@) == strip_prefixes(cur@, pre@),
        decreases cur@.len(),
    {
        let l = cur.as_str().unicode_len();
        let rest = String::from_str(cur.as_str().substring_char(n, l));
        proof {
            assert(rest@ =~= cur@.skip(n as int));
        }
        cur = rest;
    }
    cur
}

} // verus!

verus! {

/// What follows a dot is the last segment when it holds no dot itself.
pub proof fn lemma_last_segment_after_dot(a: Seq<char>, e: Seq<char>)
    requires
        forall|i: int| 0 <= i < e.len() ==> e[i] != '.',
    ensures
        last_segment(a + seq!['.'] + e) == e,
    decreases e.len(),
{
    let s = a + seq!['.'] + e;
    if e.len() == 0 {
        assert(s.last() == '.');
    } else {
        assert(s.drop_last() =~= a + seq!['.'] + e.drop_last());
        lemma_last_segment_after_dot(a, e.drop_last());
        assert(e.drop_last().push(e.last()) =~= e);
    }
}

} // verus!
