use vstd::prelude::*;
use crate::parser_mod::text::{chars_of, push_char};

verus! {

/// Splits a statement into tokens: words end at a space, a comma or a
/// semicolon; a comma is a token of its own; a semicolon ends the input.
pub struct Lexer {
    chars: Vec<char>,
    pointer: usize,
    source: String,
}

/// The rest of a scan that has read `formed` and stands at `p`: the token it
/// returns (`None` at a semicolon with nothing read) and where it leaves
/// the position; `None` when it would read past the end of the input.
///
/// A space ends a word that has begun; a space met before any character is
/// read becomes part of the word and the character after it is passed over.
pub open spec fn scan_token(chars: Seq<char>, p: int, formed: Seq<char>) -> Option<(Option<Seq<char>>, int)>
    decreases chars.len() - p,
{
    if p < 0 || p >= chars.len() {
        None
    } else {
        let c = chars[p];
        if c == ' ' && formed.len() > 0 {
            Some((Some(formed), p + 1))
        } else if c == ';' {
            Some((if formed.len() > 0 { Some(formed) } else { None }, p))
        } else if c == ',' {
            if formed.len() > 0 {
                Some((Some(formed), p))
            } else {
                Some((Some(seq![',']), p + 1))
            }
        } else if c == ' ' {
            if p + 1 >= chars.len() {
                None
            } else {
                scan_token(chars, p + 2, formed.push(c))
            }
        } else {
            scan_token(chars, p + 1, formed.push(c))
        }
    }
}

/// The next token of `chars` from position `p` and the position after it:
/// no token at the end of the input; `None` when the lexer would read past
/// the end of the input.
pub open spec fn spec_next_token(chars: Seq<char>, p: int) -> Option<(Option<Seq<char>>, int)> {
    if p == chars.len() {
        Some((None, p))
    } else {
        scan_token(chars, p, Seq::empty())
    }
}

/// Whether `t` holds neither a comma nor a semicolon.
pub open spec fn has_no_separator(t: Seq<char>) -> bool {
    forall|i: int| 0 <= i < t.len() ==> t[i] != ',' && t[i] != ';'
}

proof fn lemma_scan_token(chars: Seq<char>, p: int, formed: Seq<char>)
    requires
        0 <= p,
        has_no_separator(formed),
    ensures
        scan_token(chars, p, formed) matches Some((token, q)) ==> {
            &&& p <= q <= chars.len()
            &&& token is None ==> q == p && formed.len() == 0
            &&& token is Some ==> q > p || formed.len() > 0
            &&& token matches Some(t) ==> t.len() > 0 && (t == seq![','] || has_no_separator(t))
        },
    decreases chars.len() - p,
{
    if 0 <= p < chars.len() {
        let c = chars[p];
        if !(c == ' ' && formed.len() > 0) && c != ';' && c != ',' {
            assert(has_no_separator(formed.push(c))) by {
                assert forall|i: int| 0 <= i < formed.push(c).len() implies formed.push(c)[i] != ',' && formed.push(c)[i]
                    != ';' by {
                    if i < formed.len() {
                        assert(formed.push(c)[i] == formed[i]);
                    }
                }
            }
            if c == ' ' {
                if p + 1 < chars.len() {
                    lemma_scan_token(chars, p + 2, formed.push(c));
                }
            } else {
                lemma_scan_token(chars, p + 1, formed.push(c));
            }
        }
    }
}

proof fn lemma_scan_token_semicolons(chars: Seq<char>, p: int, formed: Seq<char>)
    requires
        0 <= p,
    ensures
        scan_token(chars, p, formed) matches Some((token, q)) ==> forall|j: int|
            p <= j < q && #[trigger] chars[j] == ';' ==> j == p + 1 && chars[p] == ' ' && formed.len() == 0,
        scan_token(chars, p, formed) matches Some((None, q)) ==> q == p && p < chars.len() && chars[p] == ';',
    decreases chars.len() - p,
{
    if 0 <= p < chars.len() {
        let c = chars[p];
        if !(c == ' ' && formed.len() > 0) && c != ';' && c != ',' {
            if c == ' ' {
                if p + 1 < chars.len() {
                    lemma_scan_token_semicolons(chars, p + 2, formed.push(c));
                }
            } else {
                lemma_scan_token_semicolons(chars, p + 1, formed.push(c));
            }
        }
    }
}

/// A semicolon ends the input: the lexer never moves past one (but for the
/// character that a space read before any other character passes over),
/// answers no token when it stands at one, and answers no token only at
/// one or at the end of the input, where it stays.
pub proof fn lemma_semicolon_ends_input(chars: Seq<char>, p: int)
    requires
        0 <= p <= chars.len(),
    ensures
        spec_next_token(chars, p) matches Some((token, q)) ==> forall|j: int|
            p <= j < q && #[trigger] chars[j] == ';' ==> j == p + 1 && chars[p] == ' ',
        p < chars.len() && chars[p] == ';' ==> spec_next_token(chars, p) == Some((None::<Seq<char>>, p)),
        spec_next_token(chars, p) matches Some((None, q)) ==> q == p && (p == chars.len() || chars[p] == ';'),
{
    lemma_scan_token_semicolons(chars, p, Seq::empty());
    lemma_scan_token(chars, p, Seq::empty());
}

/// Whether `c` can stand in a word: it is neither a space, a comma nor a
/// semicolon.
pub open spec fn is_word_char(c: char) -> bool {
    c != ' ' && c != ',' && c != ';'
}

proof fn lemma_scan_word(chars: Seq<char>, p: int, formed: Seq<char>)
    requires
        0 <= p,
        forall|j: int| 0 <= j < formed.len() ==> is_word_char(#[trigger] formed[j]),
        formed.len() > 0 || (p < chars.len() && is_word_char(chars[p])),
    ensures
        scan_token(chars, p, formed) matches Some((Some(t), q)) ==> {
            let m = p + t.len() - formed.len();
            &&& p <= m < chars.len()
            &&& t == formed + chars.subrange(p, m)
            &&& forall|j: int| p <= j < m ==> is_word_char(#[trigger] chars[j])
            &&& !is_word_char(chars[m])
            &&& q == if chars[m] == ' ' { m + 1 } else { m }
        },
    decreases chars.len() - p,
{
    if 0 <= p < chars.len() {
        let c = chars[p];
        if is_word_char(c) {
            let f2 = formed.push(c);
            assert forall|j: int| 0 <= j < f2.len() implies is_word_char(#[trigger] f2[j]) by {
                if j < formed.len() {
                    assert(f2[j] == formed[j]);
                }
            }
            lemma_scan_word(chars, p + 1, f2);
            if let Some((Some(t), q)) = scan_token(chars, p, formed) {
                let m = p + t.len() - formed.len();
                assert(formed + chars.subrange(p, m) =~= f2 + chars.subrange(p + 1, m));
            }
        } else {
            if let Some((Some(t), q)) = scan_token(chars, p, formed) {
                assert(t == formed);
                assert(formed + chars.subrange(p, p) =~= formed);
            }
        }
    }
}

/// A token that starts at a character of a word is the whole run of word
/// characters from there; the lexer then stands just past the space that
/// ended the word, or at the comma or semicolon that ended it. A comma on
/// its own is the comma token, and the lexer stands past it.
pub proof fn lemma_word_token(chars: Seq<char>, p: int)
    requires
        0 <= p < chars.len(),
    ensures
        is_word_char(chars[p]) ==> (spec_next_token(chars, p) matches Some((Some(t), q)) ==> {
            let m = p + t.len();
            &&& m < chars.len()
            &&& t == chars.subrange(p, m)
            &&& forall|j: int| p <= j < m ==> is_word_char(#[trigger] chars[j])
            &&& !is_word_char(chars[m])
            &&& q == if chars[m] == ' ' { m + 1 } else { m }
        }),
        chars[p] == ',' ==> spec_next_token(chars, p) == Some((Some(seq![',']), p + 1)),
{
    if is_word_char(chars[p]) {
        lemma_scan_word(chars, p, Seq::empty());
        if let Some((Some(t), q)) = spec_next_token(chars, p) {
            assert(Seq::<char>::empty() + chars.subrange(p, p + t.len()) =~= chars.subrange(p, p + t.len()));
        }
    }
}

/// Every token the lexer returns is nonempty, and is either the comma token
/// or holds neither a comma nor a semicolon.
pub proof fn lemma_token_shape(chars: Seq<char>, p: int)
    requires
        0 <= p <= chars.len(),
    ensures
        spec_next_token(chars, p) matches Some((Some(t), q)) ==> t.len() > 0 && (t == seq![','] || has_no_separator(t)),
{
    lemma_scan_token(chars, p, Seq::empty());
}

/// Reading a token moves the lexer forward, never past the end of the
/// input; reading no token leaves it where it was, so that from then on it
/// keeps answering that there is none.
pub proof fn lemma_next_token_progress(chars: Seq<char>, p: int)
    requires
        0 <= p <= chars.len(),
    ensures
        spec_next_token(chars, p) matches Some((token, q)) ==> {
            &&& p <= q <= chars.len()
            &&& token is Some ==> p < q
            &&& token is None ==> q == p && spec_next_token(chars, q) == spec_next_token(chars, p)
        },
{
    lemma_scan_token(chars, p, Seq::empty());
}

impl Lexer {
    /// Whether the lexer is well formed: its characters are those of the
    /// statement it was made from, and it stands within them.
    pub closed spec fn wf(&self) -> bool {
        &&& self.pointer <= self.chars@.len()
        &&& self.chars@ == self.source@
    }

    /// The characters of the statement.
    pub closed spec fn chars_view(&self) -> Seq<char> {
        self.chars@
    }

    /// Where the lexer stands in them.
    pub closed spec fn position(&self) -> int {
        self.pointer as int
    }

    /// A lexer at the start of `source`.
    pub fn new(source: String) -> (res: Lexer)
        ensures
            res.wf(),
            res.chars_view() == source@,
            res.position() == 0,
    {
        let chars = chars_of(source.as_str());
        Lexer { chars, pointer: 0, source }
    }

    /// Reads the next token, or `None` at the end of the input or at a
    /// semicolon.
    pub fn next_token(&mut self) -> (res: Option<String>)
        requires
            old(self).wf(),
            spec_next_token(old(self).chars_view(), old(self).position()) is Some,
        ensures
            final(self).wf(),
            final(self).chars_view() == old(self).chars_view(),
            ({
                let (token, p) = spec_next_token(old(self).chars_view(), old(self).position()).unwrap();
                &&& res.deep_view() == token
                &&& final(self).position() == p
            }),
            0 <= final(self).position() <= final(self).chars_view().len(),
    {
        let ghost chars = self.chars@;
        let ghost outcome = spec_next_token(chars, self.pointer as int);
        let mut formed_token = String::new();
        if self.pointer == self.chars.len() {
            return None;
        }
        loop
            invariant
                self.chars@ == chars,
                chars == old(self).chars@,
                outcome == spec_next_token(old(self).chars_view(), old(self).position()),
                self.chars@ == self.source@,
                self.pointer <= chars.len(),
                outcome is Some,
                outcome == scan_token(chars, self.pointer as int, formed_token@),
            decreases chars.len() - self.pointer,
        {
            let len = self.chars.len();
            assert(self.pointer < len);
            let c = self.chars[self.pointer];
            if c == ' ' {
                if !formed_token.as_str().is_empty() {
                    self.pointer = self.pointer + 1;
                    return Some(formed_token);
                }
            }
            if c == ';' {
                if !formed_token.as_str().is_empty() {
                    return Some(formed_token);
                }
                return None;
            }
            if c == ',' {
                if !formed_token.as_str().is_empty() {
                    return Some(formed_token);
                }
                self.pointer = self.pointer + 1;
                proof {
                    reveal_strlit(",");
                }
                return Some(String::from_str(","));
            }
            if c == ' ' {
                self.pointer = self.pointer + 1;
            }
            self.pointer = self.pointer + 1;
            push_char(&mut formed_token, c);
        }
    }
}

/// A well-formed lexer stands within its input: at its start, at its end,
/// or between.
pub proof fn lemma_position_in_bounds(lexer: Lexer)
    requires
        lexer.wf(),
    ensures
        0 <= lexer.position() <= lexer.chars_view().len(),
{
}

} // verus!
