//! Text primitives for the fallback embedding strategy and for tag parsing:
//! lowercasing, word splitting, blank detection and trimming.
//!
//! Unicode character classes and the lowercase mapping come from the standard
//! library behind trusted wrappers; everything built on top of them is
//! verified against the names those wrappers introduce.

use vstd::prelude::*;

verus! {

/// The sequence of characters that `str::to_lowercase` produces for `s`.
pub uninterp spec fn lowercase_of(s: Seq<char>) -> Seq<char>;

/// Whether `char::is_alphanumeric` holds of `c`.
pub uninterp spec fn char_alphanumeric(c: char) -> bool;

/// Whether `char::is_whitespace` holds of `c`.
pub uninterp spec fn char_whitespace(c: char) -> bool;

/// Relies on `str::to_lowercase`: the Unicode lowercase mapping, a function
/// of the input characters alone; an empty input yields an empty string.
#[verifier::external_body]
pub fn to_lowercase(s: &str) -> (r: String)
    ensures
        r@ == lowercase_of(s@),
        s@.len() == 0 ==> r@.len() == 0,
{
    s.to_lowercase()
}

/// Relies on `char::is_alphanumeric`: a fixed Unicode property of the
/// character.
#[verifier::external_body]
pub fn is_alphanumeric_char(c: char) -> (r: bool)
    ensures
        r == char_alphanumeric(c),
{
    c.is_alphanumeric()
}

/// Relies on `char::is_whitespace`: a fixed Unicode property of the
/// character.
#[verifier::external_body]
pub fn is_whitespace_char(c: char) -> (r: bool)
    ensures
        r == char_whitespace(c),
{
    c.is_whitespace()
}

/// A character that belongs to a word when splitting text into tokens:
/// alphanumerics plus intra-word apostrophes and hyphens.
pub open spec fn is_word_char(c: char) -> bool {
    char_alphanumeric(c) || c == '\'' || c == '-'
}

/// Exec test for [`is_word_char`].
pub fn check_word_char(c: char) -> (r: bool)
    ensures
        r == is_word_char(c),
{
    is_alphanumeric_char(c) || c == '\'' || c == '-'
}

/// Number of bytes of the UTF-8 encoding of `c`.
pub open spec fn char_utf8_len(c: char) -> int {
    if (c as u32) < 0x80 {
        1
    } else if (c as u32) < 0x800 {
        2
    } else if (c as u32) < 0x10000 {
        3
    } else {
        4
    }
}

/// Exec computation of [`char_utf8_len`].
pub fn utf8_len_of_char(c: char) -> (n: usize)
    ensures
        n == char_utf8_len(c),
{
    let v: u32 = c as u32;
    if v < 0x80 {
        1
    } else if v < 0x800 {
        2
    } else if v < 0x10000 {
        3
    } else {
        4
    }
}

/// State of a left-to-right word scan over `s`: the tokens already closed,
/// and the still-open run of word characters.
pub open spec fn split_state(s: Seq<char>) -> (Seq<Seq<char>>, Seq<char>)
    decreases s.len(),
{
    if s.len() == 0 {
        (Seq::empty(), Seq::empty())
    } else {
        let prev = split_state(s.drop_last());
        let c = s.last();
        if is_word_char(c) {
            (prev.0, prev.1.push(c))
        } else if prev.1.len() == 0 {
            (prev.0, Seq::empty())
        } else {
            (prev.0.push(prev.1), Seq::empty())
        }
    }
}

/// The maximal runs of word characters in `s`, in order of appearance.
pub open spec fn spec_tokens(s: Seq<char>) -> Seq<Seq<char>> {
    let st = split_state(s);
    if st.1.len() == 0 {
        st.0
    } else {
        st.0.push(st.1)
    }
}

/// Split `s` into its maximal runs of word characters.
pub fn tokenize(s: &str) -> (tokens: Vec<String>)
    ensures
        tokens@.map_values(|t: String| t@) == spec_tokens(s@),
{
    let n: usize = s.unicode_len();
    let mut tokens: Vec<String> = Vec::new();
    let mut start: usize = 0;
    let mut in_word: bool = false;
    let mut i: usize = 0;
    while i < n
        invariant
            i <= n,
            n == s@.len(),
            in_word ==> start < i,
            tokens@.map_values(|t: String| t@) == split_state(s@.take(i as int)).0,
            in_word ==> split_state(s@.take(i as int)).1 == s@.subrange(
                start as int,
                i as int,
            ),
            !in_word ==> split_state(s@.take(i as int)).1 == Seq::<char>::empty(),
        decreases n - i,
    {
        let c = s.get_char(i);
        proof {
            assert(s@.take(i as int + 1).drop_last() =~= s@.take(i as int));
            assert(s@.take(i as int + 1).last() == s@[i as int]);
        }
        if check_word_char(c) {
            if !in_word {
                start = i;
                in_word = true;
            }
            proof {
                assert(s@.subrange(start as int, i as int + 1) =~= s@.subrange(
                    start as int,
                    i as int,
                ).push(s@[i as int]));
            }
        } else {
            if in_word {
                let tok = s.substring_char(start, i);
                let owned = String::from_str(tok);
                proof {
                    assert((tokens@.push(owned)).map_values(|t: String| t@) =~= tokens@
                        .map_values(|t: String| t@).push(owned@));
                }
                tokens.push(owned);
                in_word = false;
            }
        }
        i = i + 1;
    }
    proof {
        assert(s@.take(n as int) =~= s@);
    }
    if in_word {
        let tok = s.substring_char(start, n);
        let owned = String::from_str(tok);
        proof {
            assert((tokens@.push(owned)).map_values(|t: String| t@) =~= tokens@.map_values(
                |t: String| t@,
            ).push(owned@));
        }
        tokens.push(owned);
    }
    tokens
}

/// Whether a token survives the length filter: only tokens that take
/// more than one byte in UTF-8 carry signal worth counting.
pub open spec fn keeps_token(t: Seq<char>) -> bool {
    t.len() >= 2 || (t.len() == 1 && char_utf8_len(t[0]) > 1)
}

/// The tokens of `ts` that pass the length filter, order preserved.
pub open spec fn spec_keep_tokens(ts: Seq<Seq<char>>) -> Seq<Seq<char>>
    decreases ts.len(),
{
    if ts.len() == 0 {
        Seq::empty()
    } else {
        let prev = spec_keep_tokens(ts.drop_last());
        if keeps_token(ts.last()) {
            prev.push(ts.last())
        } else {
            prev
        }
    }
}

/// The words that feed the fallback embedding of `s`: maximal word-character
/// runs longer than one byte.
pub open spec fn spec_words(s: Seq<char>) -> Seq<Seq<char>> {
    spec_keep_tokens(spec_tokens(s))
}

/// Exec test for [`keeps_token`] on an owned token.
fn keep_word(t: &String) -> (r: bool)
    ensures
        r == keeps_token(t@),
{
    let len: usize = t.as_str().unicode_len();
    if len >= 2 {
        true
    } else if len == 1 {
        let c = t.as_str().get_char(0);
        utf8_len_of_char(c) > 1
    } else {
        false
    }
}

/// Split `s` into words and drop the ones the length filter rejects.
pub fn split_words(s: &str) -> (words: Vec<String>)
    ensures
        words@.map_values(|t: String| t@) == spec_words(s@),
{
    let tokens = tokenize(s);
    let mut words: Vec<String> = Vec::new();
    let n: usize = tokens.len();
    let mut i: usize = 0;
    while i < n
        invariant
            i <= n,
            n == tokens@.len(),
            tokens@.map_values(|t: String| t@) == spec_tokens(s@),
            words@.map_values(|t: String| t@) == spec_keep_tokens(
                spec_tokens(s@).take(i as int),
            ),
        decreases n - i,
    {
        proof {
            assert(spec_tokens(s@).take(i as int + 1).drop_last() =~= spec_tokens(s@).take(
                i as int,
            ));
            assert(spec_tokens(s@).take(i as int + 1).last() == spec_tokens(s@)[i as int]);
            assert(tokens@.map_values(|t: String| t@)[i as int] == tokens@[i as int]@);
        }
        let keep = keep_word(&tokens[i]);
        if keep {
            let w = tokens[i].clone();
            proof {
                assert(w@ == tokens@[i as int]@);
                assert((words@.push(w)).map_values(|t: String| t@) =~= words@.map_values(
                    |t: String| t@,
                ).push(w@));
            }
            words.push(w);
        }
        i = i + 1;
    }
    proof {
        assert(spec_tokens(s@).take(n as int) =~= spec_tokens(s@));
    }
    words
}

/// Whether `s` consists of whitespace only (so it carries no content).
pub open spec fn spec_blank(s: Seq<char>) -> bool {
    forall|i: int| 0 <= i < s.len() ==> char_whitespace(s[i])
}

/// Whether `s` is empty or whitespace-only.
pub fn is_blank(s: &str) -> (r: bool)
    ensures
        r == spec_blank(s@),
{
    let n: usize = s.unicode_len();
    let mut i: usize = 0;
    while i < n
        invariant
            i <= n,
            n == s@.len(),
            forall|j: int| 0 <= j < i ==> char_whitespace(s@[j]),
        decreases n - i,
    {
        let c = s.get_char(i);
        if !is_whitespace_char(c) {
            return false;
        }
        i = i + 1;
    }
    true
}

/// Number of leading whitespace characters of `s`.
pub open spec fn leading_ws(s: Seq<char>) -> int
    decreases s.len(),
{
    if s.len() == 0 || !char_whitespace(s[0]) {
        0
    } else {
        1 + leading_ws(s.drop_first())
    }
}

/// Number of trailing whitespace characters of `s`.
pub open spec fn trailing_ws(s: Seq<char>) -> int
    decreases s.len(),
{
    if s.len() == 0 || !char_whitespace(s.last()) {
        0
    } else {
        1 + trailing_ws(s.drop_last())
    }
}

/// `s` with leading and trailing whitespace removed, as `str::trim` does.
pub open spec fn spec_trim(s: Seq<char>) -> Seq<char> {
    if spec_blank(s) {
        Seq::empty()
    } else {
        s.subrange(leading_ws(s), s.len() - trailing_ws(s))
    }
}

proof fn lemma_leading_ws_bounds(s: Seq<char>)
    ensures
        0 <= leading_ws(s) <= s.len(),
        forall|i: int| 0 <= i < leading_ws(s) ==> char_whitespace(s[i]),
        leading_ws(s) < s.len() ==> !char_whitespace(s[leading_ws(s)]),
    decreases s.len(),
{
    if s.len() > 0 && char_whitespace(s[0]) {
        lemma_leading_ws_bounds(s.drop_first());
        assert forall|i: int| 0 <= i < leading_ws(s) implies char_whitespace(s[i]) by {
            if i > 0 {
                assert(s.drop_first()[i - 1] == s[i]);
            }
        }
        if leading_ws(s) < s.len() {
            assert(s.drop_first()[leading_ws(s) - 1] == s[leading_ws(s)]);
        }
    }
}

proof fn lemma_trailing_ws_bounds(s: Seq<char>)
    ensures
        0 <= trailing_ws(s) <= s.len(),
        forall|i: int| s.len() - trailing_ws(s) <= i < s.len() ==> char_whitespace(s[i]),
        trailing_ws(s) < s.len() ==> !char_whitespace(s[s.len() - trailing_ws(s) - 1]),
    decreases s.len(),
{
    if s.len() > 0 && char_whitespace(s.last()) {
        lemma_trailing_ws_bounds(s.drop_last());
        assert forall|i: int| s.len() - trailing_ws(s) <= i < s.len() implies char_whitespace(
            s[i],
        ) by {
            if i < s.len() - 1 {
                assert(s.drop_last()[i] == s[i]);
            }
        }
        if trailing_ws(s) < s.len() {
            assert(s.drop_last()[s.len() - trailing_ws(s) - 1] == s[s.len() - trailing_ws(s)
                - 1]);
        }
    }
}

/// Remove leading and trailing whitespace, as `str::trim` does.
pub fn trim_str<'a>(s: &'a str) -> (r: &'a str)
    ensures
        r@ == spec_trim(s@),
{
    let n: usize = s.unicode_len();
    let mut a: usize = 0;
    let mut scanning: bool = true;
    while scanning && a < n
        invariant
            a <= n,
            n == s@.len(),
            forall|j: int| 0 <= j < a ==> char_whitespace(s@[j]),
            !scanning ==> a < n && !char_whitespace(s@[a as int]),
        decreases n - a + if scanning {
            1int
        } else {
            0int
        },
    {
        let c = s.get_char(a);
        if is_whitespace_char(c) {
            a = a + 1;
        } else {
            scanning = false;
        }
    }
    if a == n {
        let r = s.substring_char(n, n);
        proof {
            assert(spec_blank(s@));
            assert(r@ =~= spec_trim(s@));
        }
        return r;
    }
    proof {
        lemma_leading_ws_bounds(s@);
        assert(!char_whitespace(s@[a as int]));
        assert(!spec_blank(s@));
        assert(leading_ws(s@) == a) by {
            if leading_ws(s@) < a {
                assert(char_whitespace(s@[leading_ws(s@)]));
            }
        }
    }
    let mut b: usize = n;
    let mut back: bool = true;
    while back && b > a + 1
        invariant
            a < b <= n,
            n == s@.len(),
            forall|j: int| b <= j < n ==> char_whitespace(s@[j]),
            !back ==> !char_whitespace(s@[b - 1]),
        decreases b + if back {
            1int
        } else {
            0int
        },
    {
        let c = s.get_char(b - 1);
        if is_whitespace_char(c) {
            b = b - 1;
        } else {
            back = false;
        }
    }
    proof {
        lemma_trailing_ws_bounds(s@);
        assert(!char_whitespace(s@[b - 1])) by {
            if back {
                assert(b == a + 1);
            }
        }
        assert(trailing_ws(s@) == n - b) by {
            if trailing_ws(s@) < n - b {
                assert(char_whitespace(s@[s@.len() - trailing_ws(s@) - 1])) by {
                    assert(b <= s@.len() - trailing_ws(s@) - 1 < s@.len());
                }
            } else if trailing_ws(s@) > n - b {
                assert(s@.len() - trailing_ws(s@) <= b - 1 < s@.len());
                assert(char_whitespace(s@[b - 1]));
            }
        }
    }
    let r = s.substring_char(a, b);
    r
}

/// Total UTF-8 byte length of a character sequence.
pub open spec fn seq_utf8_len(s: Seq<char>) -> int
    decreases s.len(),
{
    if s.len() == 0 {
        0
    } else {
        seq_utf8_len(s.drop_last()) + char_utf8_len(s.last())
    }
}

/// Byte length never shrinks as the sequence grows.
proof fn lemma_seq_utf8_len_prefix(s: Seq<char>, i: int)
    requires
        0 <= i <= s.len(),
    ensures
        0 <= seq_utf8_len(s.take(i)) <= seq_utf8_len(s),
    decreases s.len(),
{
    if s.len() == 0 {
        assert(s.take(i) =~= s);
    } else if i == s.len() {
        assert(s.take(i) =~= s);
        lemma_seq_utf8_len_prefix(s.drop_last(), i - 1);
    } else {
        lemma_seq_utf8_len_prefix(s.drop_last(), i);
        assert(s.drop_last().take(i) =~= s.take(i));
    }
}

/// Whether the UTF-8 encoding of `s` takes at most `cap` bytes.
pub fn utf8_len_at_most(s: &str, cap: usize) -> (r: bool)
    ensures
        r == (seq_utf8_len(s@) <= cap as int),
{
    let n: usize = s.unicode_len();
    let mut acc: usize = 0;
    let mut i: usize = 0;
    proof {
        assert(s@.take(0) =~= Seq::<char>::empty());
    }
    while i < n
        invariant
            i <= n,
            n == s@.len(),
            acc <= cap,
            acc == seq_utf8_len(s@.take(i as int)),
        decreases n - i,
    {
        proof {
            assert(s@.take(i as int + 1).drop_last() =~= s@.take(i as int));
            assert(s@.take(i as int + 1).last() == s@[i as int]);
        }
        let c = s.get_char(i);
        let step = utf8_len_of_char(c);
        if step > cap - acc {
            proof {
                lemma_seq_utf8_len_prefix(s@, i as int + 1);
            }
            return false;
        }
        acc = acc + step;
        i = i + 1;
    }
    proof {
        assert(s@.take(n as int) =~= s@);
    }
    true
}

/// State of a comma scan over `s`: the fields already closed, and the
/// still-open field.
pub open spec fn comma_state(s: Seq<char>) -> (Seq<Seq<char>>, Seq<char>)
    decreases s.len(),
{
    if s.len() == 0 {
        (Seq::empty(), Seq::empty())
    } else {
        let prev = comma_state(s.drop_last());
        if s.last() == ',' {
            (prev.0.push(prev.1), Seq::empty())
        } else {
            (prev.0, prev.1.push(s.last()))
        }
    }
}

/// The comma-separated fields of `s`, empty fields included; text without
/// a comma is one field.
pub open spec fn spec_comma_fields(s: Seq<char>) -> Seq<Seq<char>> {
    let st = comma_state(s);
    st.0.push(st.1)
}

/// Split `s` at commas, keeping empty fields.
pub fn comma_fields(s: &str) -> (fields: Vec<String>)
    ensures
        fields@.map_values(|f: String| f@) == spec_comma_fields(s@),
{
    let n: usize = s.unicode_len();
    let mut fields: Vec<String> = Vec::new();
    let mut start: usize = 0;
    let mut i: usize = 0;
    while i < n
        invariant
            i <= n,
            start <= i,
            n == s@.len(),
            fields@.map_values(|f: String| f@) == comma_state(s@.take(i as int)).0,
            comma_state(s@.take(i as int)).1 == s@.subrange(start as int, i as int),
        decreases n - i,
    {
        let c = s.get_char(i);
        proof {
            assert(s@.take(i as int + 1).drop_last() =~= s@.take(i as int));
            assert(s@.take(i as int + 1).last() == s@[i as int]);
        }
        if c == ',' {
            let field = s.substring_char(start, i);
            let owned = String::from_str(field);
            proof {
                assert((fields@.push(owned)).map_values(|f: String| f@) =~= fields@.map_values(
                    |f: String| f@,
                ).push(owned@));
                assert(s@.subrange(i as int + 1, i as int + 1) =~= Seq::<char>::empty());
            }
            fields.push(owned);
            start = i + 1;
        } else {
            proof {
                assert(s@.subrange(start as int, i as int + 1) =~= s@.subrange(
                    start as int,
                    i as int,
                ).push(s@[i as int]));
            }
        }
        i = i + 1;
    }
    proof {
        assert(s@.take(n as int) =~= s@);
    }
    let field = s.substring_char(start, n);
    let owned = String::from_str(field);
    proof {
        assert((fields@.push(owned)).map_values(|f: String| f@) =~= fields@.map_values(
            |f: String| f@,
        ).push(owned@));
    }
    fields.push(owned);
    fields
}

} // verus!
