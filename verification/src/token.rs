//! Character-level tokenizer: turns a sequence of characters into word
//! tokens and the two bracket control markers.

use vstd::prelude::*;

verus! {

/// A lexical token. Whitespace separates words and produces no token of its
/// own; `[` and `]` first end any in-progress word and then stand for the
/// two control markers. They are never part of a word's text.
#[derive(Debug, PartialEq, Eq)]
pub enum Token {
    Word(Vec<char>),
    EnterContext,
    ExitContext,
}

/// Mathematical model of a token, with the word's text as a `Seq<char>`.
pub enum Tok {
    Word(Seq<char>),
    EnterContext,
    ExitContext,
}

impl View for Token {
    type V = Tok;

    open spec fn view(&self) -> Tok {
        match self {
            Token::Word(w) => Tok::Word(w@),
            Token::EnterContext => Tok::EnterContext,
            Token::ExitContext => Tok::ExitContext,
        }
    }
}

/// The token sequence a sequence of `Token`s stands for.
pub open spec fn toks_view(ts: Seq<Token>) -> Seq<Tok> {
    ts.map_values(|t: Token| t@)
}

/// The characters with the Unicode `White_Space` property: exactly the
/// characters on which `char::is_whitespace` returns true.
pub open spec fn is_space_char(c: char) -> bool {
    ||| c == ' '
    ||| c == '\t'
    ||| c == '\n'
    ||| c == '\u{0b}'
    ||| c == '\u{0c}'
    ||| c == '\r'
    ||| c == '\u{85}'
    ||| c == '\u{a0}'
    ||| c == '\u{1680}'
    ||| c == '\u{2000}'
    ||| c == '\u{2001}'
    ||| c == '\u{2002}'
    ||| c == '\u{2003}'
    ||| c == '\u{2004}'
    ||| c == '\u{2005}'
    ||| c == '\u{2006}'
    ||| c == '\u{2007}'
    ||| c == '\u{2008}'
    ||| c == '\u{2009}'
    ||| c == '\u{200a}'
    ||| c == '\u{2028}'
    ||| c == '\u{2029}'
    ||| c == '\u{202f}'
    ||| c == '\u{205f}'
    ||| c == '\u{3000}'
}

/// Whitespace test for the tokenizer.
pub fn is_space(c: char) -> (r: bool)
    ensures
        r == is_space_char(c),
{
    c == ' ' || c == '\t' || c == '\n' || c == '\u{0b}' || c == '\u{0c}' || c == '\r'
        || c == '\u{85}' || c == '\u{a0}' || c == '\u{1680}' || c == '\u{2000}'
        || c == '\u{2001}' || c == '\u{2002}' || c == '\u{2003}' || c == '\u{2004}'
        || c == '\u{2005}' || c == '\u{2006}' || c == '\u{2007}' || c == '\u{2008}'
        || c == '\u{2009}' || c == '\u{200a}' || c == '\u{2028}' || c == '\u{2029}'
        || c == '\u{202f}' || c == '\u{205f}' || c == '\u{3000}'
}

/// The tokens an in-progress word contributes when it is ended: one `Word`
/// token if the text is non-empty, none otherwise.
pub open spec fn flush_word(w: Seq<char>) -> Seq<Tok> {
    if w.len() == 0 {
        seq![]
    } else {
        seq![Tok::Word(w)]
    }
}

/// The tokens produced by scanning `s` with `w` as the in-progress word.
pub open spec fn spec_tokenize_from(s: Seq<char>, w: Seq<char>) -> Seq<Tok>
    decreases s.len(),
{
    if s.len() == 0 {
        flush_word(w)
    } else {
        let c = s[0];
        let rest = s.skip(1);
        if c == '[' {
            flush_word(w) + seq![Tok::EnterContext] + spec_tokenize_from(rest, seq![])
        } else if c == ']' {
            flush_word(w) + seq![Tok::ExitContext] + spec_tokenize_from(rest, seq![])
        } else if is_space_char(c) {
            flush_word(w) + spec_tokenize_from(rest, seq![])
        } else {
            spec_tokenize_from(rest, w.push(c))
        }
    }
}

/// The tokens produced by scanning a whole character sequence.
pub open spec fn spec_tokenize(s: Seq<char>) -> Seq<Tok> {
    spec_tokenize_from(s, seq![])
}

/// Converts a character sequence into its tokens. The tokenizer holds no
/// state across invocations: each call scans its input alone.
pub fn tokenize(chars: &[char]) -> (toks: Vec<Token>)
    ensures
        toks_view(toks@) == spec_tokenize(chars@),
{
    let mut toks: Vec<Token> = Vec::new();
    let mut word: Vec<char> = Vec::new();
    let mut i: usize = 0;
    proof {
        assert(toks_view(toks@) =~= Seq::<Tok>::empty());
        assert(word@ =~= Seq::<char>::empty());
        assert(chars@.skip(0) =~= chars@);
    }
    while i < chars.len()
        invariant
            i <= chars.len(),
            toks_view(toks@) + spec_tokenize_from(chars@.skip(i as int), word@)
                =~= spec_tokenize(chars@),
        decreases chars.len() - i,
    {
        let ghost toks0 = toks@;
        let ghost word0 = word@;
        let c = chars[i];
        proof {
            assert(chars@.skip(i as int)[0] == chars@[i as int]);
            assert(chars@.skip(i as int).skip(1) =~= chars@.skip(i as int + 1));
        }
        if c == '[' {
            if word.len() > 0 {
                let finished = word;
                word = Vec::new();
                toks.push(Token::Word(finished));
            }
            toks.push(Token::EnterContext);
            proof {
                assert(word@ =~= Seq::<char>::empty());
                assert(toks_view(toks@) =~= toks_view(toks0) + flush_word(word0)
                    + seq![Tok::EnterContext]);
                assert(toks_view(toks@) + spec_tokenize_from(chars@.skip(i as int + 1), word@)
                    =~= spec_tokenize(chars@));
            }
        } else if c == ']' {
            if word.len() > 0 {
                let finished = word;
                word = Vec::new();
                toks.push(Token::Word(finished));
            }
            toks.push(Token::ExitContext);
            proof {
                assert(word@ =~= Seq::<char>::empty());
                assert(toks_view(toks@) =~= toks_view(toks0) + flush_word(word0)
                    + seq![Tok::ExitContext]);
                assert(toks_view(toks@) + spec_tokenize_from(chars@.skip(i as int + 1), word@)
                    =~= spec_tokenize(chars@));
            }
        } else if is_space(c) {
            if word.len() > 0 {
                let finished = word;
                word = Vec::new();
                toks.push(Token::Word(finished));
            }
            proof {
                assert(word@ =~= Seq::<char>::empty());
                assert(toks_view(toks@) =~= toks_view(toks0) + flush_word(word0));
                assert(toks_view(toks@) + spec_tokenize_from(chars@.skip(i as int + 1), word@)
                    =~= spec_tokenize(chars@));
            }
        } else {
            word.push(c);
        }
        i = i + 1;
    }
    proof {
        assert(chars@.skip(i as int) =~= Seq::<char>::empty());
    }
    let ghost toks1 = toks@;
    let ghost word1 = word@;
    if word.len() > 0 {
        toks.push(Token::Word(word));
    }
    proof {
        assert(toks_view(toks@) =~= toks_view(toks1) + flush_word(word1));
        assert(toks_view(toks@) =~= spec_tokenize(chars@));
    }
    toks
}

} // verus!
