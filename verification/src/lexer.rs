use vstd::prelude::*;
use crate::error::PlatError;
use crate::text::{letter, numeral, space};
use crate::text::{is_alphabetic, is_alphanumeric, is_numeric, is_whitespace, push_char, same_text};

verus! {

/// The kinds of token.
#[derive(Clone, Copy, Debug, PartialEq, Eq, Structural)]
pub enum PlatTokenKinds {
    /// A character that starts no token of the language.
    Unknown,
    /// The end of the text.
    EOF,
    /// One of `func`, `let`, `return`.
    Keyword,
    /// A name that is no keyword.
    Identifier,
    /// A number, a character or a string.
    Literal,
    OpenParen,
    CloseParen,
    OpenBracket,
    CloseBracket,
    OpenCurly,
    CloseCurly,
    Plus,
    Minus,
    Asterisk,
    Slash,
    Assign,
    Equals,
    Bang,
    BangEquals,
    Smaller,
    SmallerEquals,
    Greater,
    GreaterEquals,
    Comma,
    Semicolon,
    Colon,
}

/// A token: its kind and the text it was cut from.
#[derive(Debug)]
pub struct PlatToken {
    pub kind: PlatTokenKinds,
    pub value: String,
}

/// A token as contracts see it.
pub ghost struct TokenView {
    pub kind: PlatTokenKinds,
    pub text: Seq<char>,
}

impl View for PlatToken {
    type V = TokenView;

    open spec fn view(&self) -> TokenView {
        TokenView { kind: self.kind, text: self.value@ }
    }
}

/// The stretches of characters that the tokenizer walks over in one go.
#[derive(Clone, Copy, Debug, PartialEq, Eq, Structural)]
pub enum Run {
    /// What lies between tokens.
    Blank,
    /// The characters of a name after its first.
    Name,
    /// The digits of a number.
    Digits,
    /// The inside of a string literal.
    Quoted,
}

/// The kind of the token that the single character `c` makes, if it makes one.
pub open spec fn punct_kind(c: char) -> Option<PlatTokenKinds> {
    if c == '(' {
        Some(PlatTokenKinds::OpenParen)
    } else if c == ')' {
        Some(PlatTokenKinds::CloseParen)
    } else if c == '[' {
        Some(PlatTokenKinds::OpenBracket)
    } else if c == ']' {
        Some(PlatTokenKinds::CloseBracket)
    } else if c == '{' {
        Some(PlatTokenKinds::OpenCurly)
    } else if c == '}' {
        Some(PlatTokenKinds::CloseCurly)
    } else if c == '+' {
        Some(PlatTokenKinds::Plus)
    } else if c == '-' {
        Some(PlatTokenKinds::Minus)
    } else if c == '*' {
        Some(PlatTokenKinds::Asterisk)
    } else if c == '/' {
        Some(PlatTokenKinds::Slash)
    } else if c == '=' {
        Some(PlatTokenKinds::Assign)
    } else if c == '!' {
        Some(PlatTokenKinds::Bang)
    } else if c == '<' {
        Some(PlatTokenKinds::Smaller)
    } else if c == '>' {
        Some(PlatTokenKinds::Greater)
    } else if c == ',' {
        Some(PlatTokenKinds::Comma)
    } else if c == ';' {
        Some(PlatTokenKinds::Semicolon)
    } else if c == ':' {
        Some(PlatTokenKinds::Colon)
    } else {
        None
    }
}

/// The kind that a one-character operator turns into when `=` follows it.
pub open spec fn paired_kind(kind: PlatTokenKinds) -> Option<PlatTokenKinds> {
    match kind {
        PlatTokenKinds::Assign => Some(PlatTokenKinds::Equals),
        PlatTokenKinds::Bang => Some(PlatTokenKinds::BangEquals),
        PlatTokenKinds::Smaller => Some(PlatTokenKinds::SmallerEquals),
        PlatTokenKinds::Greater => Some(PlatTokenKinds::GreaterEquals),
        _ => None,
    }
}

/// Whether `c` is skipped between tokens: white space that starts no token.
pub open spec fn blank(c: char) -> bool {
    !letter(c) && !numeral(c) && c != '\'' && c != '"' && punct_kind(c) is None && space(
        c,
    )
}

/// Whether `c` belongs to a stretch of the kind `run`.
pub open spec fn in_run(run: Run, c: char) -> bool {
    match run {
        Run::Blank => blank(c),
        Run::Name => letter(c) || numeral(c),
        Run::Digits => numeral(c),
        Run::Quoted => c != '"',
    }
}

/// Where the stretch of kind `run` that starts at `from` ends: the first
/// position at or after `from` whose character is not in the stretch, or the
/// end of the text.
pub open spec fn run_end(s: Seq<char>, from: int, run: Run) -> int
    decreases s.len() - from,
{
    if 0 <= from < s.len() && in_run(run, s[from]) {
        run_end(s, from + 1, run)
    } else {
        from
    }
}

/// The character of `s` at `i`, or the character with the number 0 where
/// `s` has none there.
pub open spec fn char_at(s: Seq<char>, i: int) -> char {
    if 0 <= i < s.len() {
        s[i]
    } else {
        '\0'
    }
}

/// Whether `text` is one of the three keywords.
pub open spec fn keyword_text(text: Seq<char>) -> bool {
    text == "func"@ || text == "let"@ || text == "return"@
}

/// The token that starts at `i`, where `i` is inside the text and its
/// character is not blank, and the position after the token.
///
/// - A name is an alphabetic character and the alphabetic and numeric
///   characters that follow it; it is a keyword where it is `func`, `let`
///   or `return`, else an identifier.
/// - A number is digits, or digits, one point and the digits behind it, of
///   which there may be none: `1.` is a number. A second point and an
///   alphabetic character right behind the number are errors.
/// - A character literal is one character between apostrophes; its text is
///   that character. Without the closing apostrophe it is an error.
/// - A string literal is what stands between two double quotes, which is
///   its text; nothing in it is an escape. Without the closing quote it is
///   an error.
/// - `=`, `!`, `<` and `>` make one token with a `=` that follows them
///   directly; every other bracket, operator and separator is a token of
///   one character.
/// - Any other character is a token of the kind `Unknown`, with no text.
pub open spec fn token_at(s: Seq<char>, i: int) -> Result<(TokenView, int), PlatError> {
    let c = s[i];
    if letter(c) {
        let e = run_end(s, i + 1, Run::Name);
        let text = s.subrange(i, e);
        let kind = if keyword_text(text) {
            PlatTokenKinds::Keyword
        } else {
            PlatTokenKinds::Identifier
        };
        Ok((TokenView { kind, text }, e))
    } else if numeral(c) {
        let whole = run_end(s, i + 1, Run::Digits);
        if whole < s.len() && s[whole] == '.' {
            let e = run_end(s, whole + 1, Run::Digits);
            if e < s.len() && (s[e] == '.' || letter(s[e])) {
                Err(PlatError::LexError)
            } else {
                Ok((TokenView { kind: PlatTokenKinds::Literal, text: s.subrange(i, e) }, e))
            }
        } else if whole < s.len() && letter(s[whole]) {
            Err(PlatError::LexError)
        } else {
            Ok((TokenView { kind: PlatTokenKinds::Literal, text: s.subrange(i, whole) }, whole))
        }
    } else if c == '\'' {
        if i + 2 < s.len() && s[i + 2] == '\'' {
            Ok((TokenView { kind: PlatTokenKinds::Literal, text: seq![s[i + 1]] }, i + 3))
        } else {
            Err(PlatError::LexError)
        }
    } else if c == '"' {
        let e = run_end(s, i + 1, Run::Quoted);
        if e < s.len() {
            Ok((TokenView { kind: PlatTokenKinds::Literal, text: s.subrange(i + 1, e) }, e + 1))
        } else {
            Err(PlatError::LexError)
        }
    } else {
        match punct_kind(c) {
            Some(kind) => {
                if paired_kind(kind) is Some && i + 1 < s.len() && s[i + 1] == '=' {
                    Ok((TokenView { kind: paired_kind(kind)->0, text: s.subrange(i, i + 2) }, i + 2))
                } else {
                    Ok((TokenView { kind, text: s.subrange(i, i + 1) }, i + 1))
                }
            },
            None => Ok((TokenView { kind: PlatTokenKinds::Unknown, text: Seq::empty() }, i + 1)),
        }
    }
}

/// The next token of `s` for a cursor at `pos`, and the cursor after it. What
/// is blank is passed over first; at the end of the text the token is the
/// end-of-input token, again and again.
pub open spec fn lex_at(s: Seq<char>, pos: int) -> Result<(TokenView, int), PlatError> {
    let i = run_end(s, pos, Run::Blank);
    if 0 <= i < s.len() {
        token_at(s, i)
    } else {
        Ok((TokenView { kind: PlatTokenKinds::EOF, text: Seq::empty() }, i))
    }
}

/// A stretch ends at or after its start and inside the text, and every
/// character in it is of its kind.
pub proof fn lemma_run_end(s: Seq<char>, from: int, run: Run)
    requires
        0 <= from,
    ensures
        from <= run_end(s, from, run),
        from <= s.len() ==> run_end(s, from, run) <= s.len(),
        run_end(s, from, run) < s.len() ==> !in_run(run, s[run_end(s, from, run)]),
        forall|j: int| from <= j < run_end(s, from, run) ==> in_run(run, #[trigger] s[j]),
    decreases s.len() - from,
{
    if from < s.len() && in_run(run, s[from]) {
        lemma_run_end(s, from + 1, run);
    }
}

/// A token that is not the end of input ends after the cursor it was read at,
/// and no token ends outside the text.
pub proof fn lemma_lex_advances(s: Seq<char>, pos: int)
    ensures
        lex_at(s, pos) matches Ok((t, p)) ==> pos <= p && (pos <= s.len() ==> p <= s.len()) && (
        t.kind != PlatTokenKinds::EOF ==> 0 <= pos < p <= s.len()),
{
    if 0 <= pos <= s.len() {
        lemma_run_end(s, pos, Run::Blank);
        let i = run_end(s, pos, Run::Blank);
        if i < s.len() {
            lemma_run_end(s, i + 1, Run::Name);
            lemma_run_end(s, i + 1, Run::Digits);
            lemma_run_end(s, i + 1, Run::Quoted);
            let whole = run_end(s, i + 1, Run::Digits);
            lemma_run_end(s, whole + 1, Run::Digits);
        }
    }
}

/// At the end of the text the token is the end-of-input token on every
/// call: the cursor that it leaves gives it again.
pub proof fn lemma_end_of_input_stays(s: Seq<char>, pos: int)
    ensures
        lex_at(s, pos) matches Ok((t, p)) ==> (t.kind == PlatTokenKinds::EOF ==> lex_at(s, p)
            == lex_at(s, pos)),
{
    lemma_lex_advances(s, pos);
    if 0 <= pos <= s.len() {
        lemma_run_end(s, pos, Run::Blank);
    }
}

/// A cursor over source text that hands out one token per call.
pub struct Lexer {
    pub file: String,
    pub cursor: usize,
}

/// Walks from `from` to the end of the stretch of kind `run`, appending what
/// it passes to `out`.
fn scan(text: &str, len: usize, from: usize, run: Run, out: &mut String) -> (end: usize)
    requires
        len == text@.len(),
        from <= len,
    ensures
        end == run_end(text@, from as int, run),
        from <= end <= len,
        final(out)@ == old(out)@ + text@.subrange(from as int, end as int),
{
    let mut i = from;
    loop
        invariant
            len == text@.len(),
            from <= i <= len,
            run_end(text@, from as int, run) == run_end(text@, i as int, run),
            out@ == old(out)@ + text@.subrange(from as int, i as int),
        ensures
            run_end(text@, i as int, run) == i,
        decreases len - i,
    {
        if i >= len {
            break;
        }
        let c = text.get_char(i);
        let inside = match run {
            Run::Blank => is_blank(c),
            Run::Name => is_alphanumeric(c),
            Run::Digits => is_numeric(c),
            Run::Quoted => c != '"',
        };
        if !inside {
            break;
        }
        push_char(out, c);
        assert(text@.subrange(from as int, i as int).push(c) =~= text@.subrange(
            from as int,
            i + 1,
        ));
        i += 1;
    }
    i
}

/// Passes over what is blank from `from` on.
fn pass_blank(text: &str, len: usize, from: usize) -> (end: usize)
    requires
        len == text@.len(),
        from <= len,
    ensures
        end == run_end(text@, from as int, Run::Blank),
        from <= end <= len,
{
    let mut i = from;
    loop
        invariant
            len == text@.len(),
            from <= i <= len,
            run_end(text@, from as int, Run::Blank) == run_end(text@, i as int, Run::Blank),
        ensures
            run_end(text@, i as int, Run::Blank) == i,
        decreases len - i,
    {
        if i >= len || !is_blank(text.get_char(i)) {
            break;
        }
        i += 1;
    }
    i
}

/// The kind of the one-character token that `c` makes, if it makes one.
fn punct_of(c: char) -> (r: Option<PlatTokenKinds>)
    ensures
        r == punct_kind(c),
{
    if c == '(' {
        Some(PlatTokenKinds::OpenParen)
    } else if c == ')' {
        Some(PlatTokenKinds::CloseParen)
    } else if c == '[' {
        Some(PlatTokenKinds::OpenBracket)
    } else if c == ']' {
        Some(PlatTokenKinds::CloseBracket)
    } else if c == '{' {
        Some(PlatTokenKinds::OpenCurly)
    } else if c == '}' {
        Some(PlatTokenKinds::CloseCurly)
    } else if c == '+' {
        Some(PlatTokenKinds::Plus)
    } else if c == '-' {
        Some(PlatTokenKinds::Minus)
    } else if c == '*' {
        Some(PlatTokenKinds::Asterisk)
    } else if c == '/' {
        Some(PlatTokenKinds::Slash)
    } else if c == '=' {
        Some(PlatTokenKinds::Assign)
    } else if c == '!' {
        Some(PlatTokenKinds::Bang)
    } else if c == '<' {
        Some(PlatTokenKinds::Smaller)
    } else if c == '>' {
        Some(PlatTokenKinds::Greater)
    } else if c == ',' {
        Some(PlatTokenKinds::Comma)
    } else if c == ';' {
        Some(PlatTokenKinds::Semicolon)
    } else if c == ':' {
        Some(PlatTokenKinds::Colon)
    } else {
        None
    }
}

fn is_blank(c: char) -> (r: bool)
    ensures
        r == blank(c),
{
    !is_alphabetic(c) && !is_numeric(c) && c != '\'' && c != '"' && punct_of(c).is_none()
        && is_whitespace(c)
}

impl Lexer {
    /// A tokenizer at the start of `file`.
    pub fn new(file: String) -> (lexer: Lexer)
        ensures
            lexer.file == file,
            lexer.cursor == 0,
    {
        Lexer { file, cursor: 0 }
    }

    /// Looks one character ahead: the character behind the one at the
    /// cursor, or the character with the number 0 where the text ends
    /// before it.
    pub fn peek_char(&self) -> (c: char)
        ensures
            c == char_at(self.file@, self.cursor + 1),
    {
        let text = self.file.as_str();
        let len = text.unicode_len();
        if self.cursor < len && len - self.cursor > 1 {
            text.get_char(self.cursor + 1)
        } else {
            '\0'
        }
    }

    /// Whether `value` is one of the keywords `func`, `let`, `return`.
    pub fn is_keyword(value: &str) -> (r: bool)
        ensures
            r == keyword_text(value@),
    {
        same_text(value, "func") || same_text(value, "let") || same_text(value, "return")
    }

    /// Hands out the token at the cursor and moves the cursor behind it. At
    /// the end of the text the token is the end-of-input token, on every
    /// call. A malformed token is an error and leaves the cursor where it was.
    pub fn next(&mut self) -> (r: Result<PlatToken, PlatError>)
        ensures
            final(self).file == old(self).file,
            match lex_at(old(self).file@, old(self).cursor as int) {
                Ok((t, p)) => r matches Ok(token) && token@ == t && final(self).cursor == p,
                Err(e) => r == Err::<PlatToken, PlatError>(e) && final(self).cursor == old(self).cursor,
            },
    {
        let text = self.file.as_str();
        let len = text.unicode_len();
        let ghost s = text@;
        let mut value = String::new();
        if self.cursor >= len {
            return Ok(PlatToken { kind: PlatTokenKinds::EOF, value });
        }
        let i = pass_blank(text, len, self.cursor);
        if i >= len {
            self.cursor = i;
            return Ok(PlatToken { kind: PlatTokenKinds::EOF, value });
        }
        let c = text.get_char(i);
        if is_alphabetic(c) {
            push_char(&mut value, c);
            let e = scan(text, len, i + 1, Run::Name, &mut value);
            assert(value@ =~= s.subrange(i as int, e as int));
            let kind = if Lexer::is_keyword(value.as_str()) {
                PlatTokenKinds::Keyword
            } else {
                PlatTokenKinds::Identifier
            };
            self.cursor = e;
            Ok(PlatToken { kind, value })
        } else if is_numeric(c) {
            push_char(&mut value, c);
            let whole = scan(text, len, i + 1, Run::Digits, &mut value);
            assert(value@ =~= s.subrange(i as int, whole as int));
            if whole < len && text.get_char(whole) == '.' {
                push_char(&mut value, '.');
                let e = scan(text, len, whole + 1, Run::Digits, &mut value);
                assert(value@ =~= s.subrange(i as int, e as int));
                if e < len {
                    let after = text.get_char(e);
                    if after == '.' || is_alphabetic(after) {
                        return Err(PlatError::LexError);
                    }
                }
                self.cursor = e;
                Ok(PlatToken { kind: PlatTokenKinds::Literal, value })
            } else if whole < len && is_alphabetic(text.get_char(whole)) {
                Err(PlatError::LexError)
            } else {
                self.cursor = whole;
                Ok(PlatToken { kind: PlatTokenKinds::Literal, value })
            }
        } else if c == '\'' {
            if len - i > 2 && text.get_char(i + 2) == '\'' {
                push_char(&mut value, text.get_char(i + 1));
                assert(value@ =~= seq![s[i + 1]]);
                self.cursor = i + 3;
                Ok(PlatToken { kind: PlatTokenKinds::Literal, value })
            } else {
                Err(PlatError::LexError)
            }
        } else if c == '"' {
            let e = scan(text, len, i + 1, Run::Quoted, &mut value);
            assert(value@ =~= s.subrange(i + 1, e as int));
            if e < len {
                self.cursor = e + 1;
                Ok(PlatToken { kind: PlatTokenKinds::Literal, value })
            } else {
                Err(PlatError::LexError)
            }
        } else {
            match punct_of(c) {
                Some(kind) => {
                    push_char(&mut value, c);
                    let paired = match kind {
                        PlatTokenKinds::Assign => Some(PlatTokenKinds::Equals),
                        PlatTokenKinds::Bang => Some(PlatTokenKinds::BangEquals),
                        PlatTokenKinds::Smaller => Some(PlatTokenKinds::SmallerEquals),
                        PlatTokenKinds::Greater => Some(PlatTokenKinds::GreaterEquals),
                        _ => None,
                    };
                    self.cursor = i;
                    match paired {
                        Some(two) => {
                            if self.peek_char() == '=' {
                                push_char(&mut value, '=');
                                assert(value@ =~= s.subrange(i as int, i + 2));
                                self.cursor = i + 2;
                                return Ok(PlatToken { kind: two, value });
                            }
                        },
                        None => {},
                    }
                    assert(value@ =~= s.subrange(i as int, i + 1));
                    self.cursor = i + 1;
                    Ok(PlatToken { kind, value })
                },
                None => {
                    self.cursor = i + 1;
                    Ok(PlatToken { kind: PlatTokenKinds::Unknown, value })
                },
            }
        }
    }
}

} // verus!
