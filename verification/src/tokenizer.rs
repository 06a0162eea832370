//! From text to tokens: the pieces between whitespace, in lower case and
//! without punctuation.

use vstd::prelude::*;

verus! {

/// Whether a character beyond U+007F has the Unicode property `White_Space`.
pub uninterp spec fn unicode_whitespace(c: char) -> bool;

/// The lower-case form, under the Unicode property `Lowercase`, of a text that holds a
/// character beyond U+007F.
pub uninterp spec fn unicode_lowercase(s: Seq<char>) -> Seq<char>;

/// Whether `c` is whitespace. Up to U+007F the characters with the property
/// `White_Space` are the space and the five from the tabulator to the carriage
/// return; beyond it the answer has only its name.
pub open spec fn whitespace(c: char) -> bool {
    if c <= '\u{7f}' {
        c == ' ' || ('\t' <= c && c <= '\r')
    } else {
        unicode_whitespace(c)
    }
}

/// Whether `s` holds no character beyond U+007F.
pub open spec fn is_ascii_text(s: Seq<char>) -> bool {
    forall|i: int| 0 <= i < s.len() ==> #[trigger] s[i] <= '\u{7f}'
}

/// The small letter for a capital from `A` to `Z`, and every other character as it is.
pub open spec fn ascii_lower(c: char) -> char {
    if 'A' <= c && c <= 'Z' {
        ((c as u32) + 32) as char
    } else {
        c
    }
}

/// `s` in lower case. A text without a character beyond U+007F has its capitals from
/// `A` to `Z` made small and is else unchanged; of any other text the lower-case form
/// has only its name.
pub open spec fn lowercased(s: Seq<char>) -> Seq<char> {
    if is_ascii_text(s) {
        s.map_values(|c: char| ascii_lower(c))
    } else {
        unicode_lowercase(s)
    }
}

/// `char::is_whitespace` of std: whether the character has the property `White_Space`
/// of the Unicode character database. Which characters beyond U+007F have it is not
/// stated here.
pub assume_specification[ char::is_whitespace ](c: char) -> (r: bool)
    ensures
        r == whitespace(c),
        c > '\u{7f}' ==> r == unicode_whitespace(c),
;

/// `str::to_lowercase` of std: the lower-case equivalent of the slice as a new
/// string. std documents that it lowers the ASCII letters as `to_ascii_lowercase`
/// does, and other characters as Unicode says; what it makes of a text with a
/// character beyond U+007F is not stated here.
pub assume_specification[ str::to_lowercase ](s: &str) -> (r: String)
    ensures
        r@ == lowercased(s@),
        !is_ascii_text(s@) ==> r@ == unicode_lowercase(s@),
;

/// `String::push` of std: appends the character to the end of the string.
pub assume_specification[ String::push ](s: &mut String, c: char)
    ensures
        final(s)@ == old(s)@.push(c),
;

/// Whether `c` is one of the six characters that are taken out of every token.
pub open spec fn is_punctuation(c: char) -> bool {
    c == '!' || c == '?' || c == '.' || c == ',' || c == '"' || c == '\''
}

/// `s` without its punctuation.
pub open spec fn stripped(s: Seq<char>) -> Seq<char> {
    s.filter(|c: char| !is_punctuation(c))
}

/// The pattern that matches one punctuation character: a class of six.
pub open spec fn punctuation_class() -> Seq<char> {
    "[!?.,\"']"@
}

/// The token that a piece of text becomes: lower case first, then without punctuation.
pub open spec fn normalised(piece: Seq<char>) -> Seq<char> {
    stripped(lowercased(piece))
}

/// The number of characters at the start of `s` before the first whitespace.
pub open spec fn word_len(s: Seq<char>) -> nat
    decreases s.len(),
{
    if s.len() == 0 || whitespace(s[0]) {
        0
    } else {
        1 + word_len(s.drop_first())
    }
}

/// The word at the start of `s` ends within `s`.
pub proof fn lemma_word_len_bound(s: Seq<char>)
    ensures
        word_len(s) <= s.len(),
    decreases s.len(),
{
    if s.len() > 0 && !whitespace(s[0]) {
        lemma_word_len_bound(s.drop_first());
    }
}

/// The pieces of `s` between whitespace: each is a longest run of characters that
/// are not whitespace, and they come in the order of the text.
pub open spec fn pieces(s: Seq<char>) -> Seq<Seq<char>>
    decreases s.len(),
{
    if s.len() == 0 {
        Seq::empty()
    } else if whitespace(s[0]) {
        pieces(s.drop_first())
    } else {
        proof {
            lemma_word_len_bound(s);
        }
        seq![s.take(word_len(s) as int)] + pieces(s.skip(word_len(s) as int))
    }
}

/// The tokens of `text`: its pieces, each normalised. A piece that consists of
/// punctuation alone gives the empty token, which is a token like any other.
pub open spec fn tokens_of(text: Seq<char>) -> Seq<Seq<char>> {
    pieces(text).map_values(|piece: Seq<char>| normalised(piece))
}

/// `regex::Regex::new` and `Regex::replace_all`: the text with every match of the
/// pattern replaced.
///
/// The contract speaks of one pattern only, the class of the six punctuation
/// characters, and of putting nothing in the place of a match. A match of a class is
/// one character of the class, so what is left of the text is its other characters
/// in their order. The pattern is well formed, so that `new` does not fail on it.
#[verifier::external_body]
fn replace_all(pattern: &str, text: &str, replacement: &str) -> (out: String)
    requires
        pattern@ == punctuation_class(),
        replacement@.len() == 0,
    ensures
        out@ == stripped(text@),
{
    regex::Regex::new(pattern).unwrap().replace_all(text, replacement).into_owned()
}

/// The characters of `text`.
pub fn chars_of(text: &str) -> (out: Vec<char>)
    ensures
        out@ == text@,
{
    let mut out: Vec<char> = Vec::new();
    for c in it: text.chars()
        invariant
            it.seq() == text@,
            out@ == text@.take(it.index()),
    {
        out.push(c);
    }
    out
}

/// The pieces of `text` between whitespace, each in lower case, in the order of the text.
pub fn lowered_pieces(text: &str) -> (lowered: Vec<String>)
    ensures
        lowered.deep_view() == pieces(text@).map_values(|piece: Seq<char>| lowercased(piece)),
{
    let chars = chars_of(text);
    let n = chars.len();
    let mut lowered: Vec<String> = Vec::new();
    let ghost mut raw: Seq<Seq<char>> = Seq::empty();
    let mut i: usize = 0;
    proof {
        assert(chars@.skip(0) =~= chars@);
    }
    while i < n
        invariant
            n == chars@.len(),
            i <= n,
            raw + pieces(chars@.skip(i as int)) == pieces(chars@),
            lowered.deep_view() == raw.map_values(|piece: Seq<char>| lowercased(piece)),
        decreases n - i,
    {
        let ghost rest = chars@.skip(i as int);
        if chars[i].is_whitespace() {
            proof {
                assert(rest.drop_first() =~= chars@.skip(i + 1));
            }
            i = i + 1;
        } else {
            let start = i;
            let mut piece = String::new();
            while i < n && !chars[i].is_whitespace()
                invariant
                    n == chars@.len(),
                    start <= i <= n,
                    piece@ == chars@.subrange(start as int, i as int),
                    word_len(chars@.skip(start as int)) == (i - start) + word_len(chars@.skip(i as int)),
                decreases n - i,
            {
                proof {
                    assert(chars@.skip(i as int).drop_first() =~= chars@.skip(i + 1));
                }
                piece.push(chars[i]);
                i = i + 1;
            }
            let lower = piece.to_lowercase();
            proof {
                let len = word_len(rest) as int;
                assert(rest.take(len) =~= piece@);
                assert(rest.skip(len) =~= chars@.skip(i as int));
                let marked = raw.push(piece@);
                assert(lowered.deep_view().push(lower@) =~= marked.map_values(
                    |piece: Seq<char>| lowercased(piece),
                ));
                raw = marked;
            }
            lowered.push(lower);
        }
    }
    lowered
}

/// The tokens of `text`, in the order of the text.
pub fn tokenize(text: &str) -> (tokens: Vec<String>)
    ensures
        tokens.deep_view() == tokens_of(text@),
{
    let lowered = lowered_pieces(text);
    let n = lowered.len();
    let mut tokens: Vec<String> = Vec::new();
    let mut i: usize = 0;
    proof {
        reveal_strlit("");
    }
    while i < n
        invariant
            n == lowered@.len(),
            i <= n,
            ""@.len() == 0,
            tokens@.len() == i,
            forall|k: int| 0 <= k < i ==> (#[trigger] tokens@[k])@ == stripped(lowered@[k]@),
        decreases n - i,
    {
        tokens.push(replace_all("[!?.,\"']", lowered[i].as_str(), ""));
        i = i + 1;
    }
    proof {
        let all = tokens_of(text@);
        assert(lowered.deep_view().len() == all.len());
        assert forall|k: int| 0 <= k < n implies #[trigger] tokens.deep_view()[k] == all[k] by {
            assert(lowered.deep_view()[k] == lowered@[k]@);
        }
    }
    tokens
}

} // verus!
