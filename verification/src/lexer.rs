use vstd::prelude::*;
use crate::token::{token_view, Token, TokenKind, TokenView};

verus! {

/// A fatal condition at lex time: a malformed literal.
#[derive(Debug, Clone, Copy, PartialEq, Eq, Structural)]
pub enum LexError {
    /// A decimal integer literal that does not fit in 64 signed bits.
    IntLiteralTooLarge,
}

/// Append one character to a string.
///
/// Relies on `String::push`: the string afterwards holds its old
/// characters followed by the new one.
#[verifier::external_body]
fn string_push_char(s: &mut String, c: char)
    ensures
        final(s)@ == old(s)@.push(c),
{
    s.push(c);
}

/// Whether a character is a decimal digit.
pub open spec fn is_digit(c: char) -> bool {
    48 <= c as u32 <= 57
}

/// Whether a character may start an identifier or keyword.
pub open spec fn is_ident_start(c: char) -> bool {
    (65 <= c as u32 <= 90) || (97 <= c as u32 <= 122) || c == '_'
}

/// The lexer's state, abstracted: the text, the cursor, and the line
/// count.  The lexer's functional contracts say that each call returns
/// exactly the token a specification-level tokenization step of this
/// state prescribes.
#[verifier::ext_equal]
pub struct LexState {
    pub chars: Seq<char>,
    pub pos: usize,
    pub line: usize,
}

/// The character under the cursor, if any.
pub open spec fn lx_read(s: LexState) -> Option<char> {
    if s.pos < s.chars.len() {
        Some(s.chars[s.pos as int])
    } else {
        None
    }
}

/// Consuming the character under the cursor, counting lines at each
/// newline (the counter saturating); past the text, no change.
pub open spec fn lx_adv(s: LexState) -> LexState {
    if s.pos < s.chars.len() && s.pos < usize::MAX {
        LexState {
            chars: s.chars,
            pos: (s.pos + 1) as usize,
            line: if s.chars[s.pos as int] == '\n' && s.line < usize::MAX {
                (s.line + 1) as usize
            } else {
                s.line
            },
        }
    } else {
        s
    }
}

/// How much text a lexing step has left to work through; the
/// termination measure of the tokenization functions below.  Only the
/// exhausted text that `lx_strict` falls back to measures zero, and no
/// lexing step starts from it.
pub open spec fn lx_togo(s: LexState) -> int {
    if s.chars.len() == 0 && s.pos == 0 {
        0
    } else if s.pos >= s.chars.len() {
        1
    } else {
        s.chars.len() - s.pos + 1
    }
}

/// The later state, where a lexing step has visibly consumed at least
/// one character of the same text; a terminal state over an empty text
/// otherwise.  Every step the guard is applied to consumes a character,
/// which keeps the recursion's progress evident below.
pub open spec fn lx_strict(from: LexState, to: LexState) -> LexState {
    if to.chars == from.chars && from.pos < to.pos && to.pos <= to.chars.len() {
        to
    } else {
        LexState { chars: Seq::empty(), pos: 0, line: from.line }
    }
}

/// Skipping the rest of a `//` comment, through its newline or to the
/// end of the text.
pub open spec fn lx_skip_line(s: LexState) -> LexState
    decreases lx_togo(s), 0int,
{
    match lx_read(s) {
        None => s,
        Some(c) => {
            let s1 = lx_adv(s);
            if c == '\n' {
                s1
            } else {
                lx_skip_line(lx_strict(s, s1))
            }
        },
    }
}

/// Skipping the maximal run of whitespace and `//` comments.
pub open spec fn lx_skip_ws(s: LexState) -> LexState
    decreases lx_togo(s), 1int,
{
    match lx_read(s) {
        None => s,
        Some(c) => {
            if c == ' ' || c == '\t' || c == '\n' || c == '\r' || c == '\u{0B}' || c
                == '\u{0C}' {
                lx_skip_ws(lx_strict(s, lx_adv(s)))
            } else if c == '/' && lx_read(lx_adv(s)) == Some('/') {
                lx_skip_ws(lx_strict(s, lx_skip_line(lx_adv(lx_adv(s)))))
            } else {
                s
            }
        },
    }
}

/// Scanning a run of digits with at most one dot: the literal's text,
/// its checked decimal value, whether a dot was seen, and whether the
/// value overflowed 64 signed bits.
pub open spec fn lx_scan_num(
    s: LexState,
    text: Seq<char>,
    val: i64,
    has_dot: bool,
    overflow: bool,
) -> (LexState, Seq<char>, i64, bool, bool)
    decreases lx_togo(s),
{
    match lx_read(s) {
        None => (s, text, val, has_dot, overflow),
        Some(c) => {
            let u = c as u32;
            if 48 <= u <= 57 {
                let d = (u - 48) as i64;
                if val > (i64::MAX - d) / 10 {
                    lx_scan_num(lx_strict(s, lx_adv(s)), text.push(c), val, has_dot, true)
                } else {
                    lx_scan_num(
                        lx_strict(s, lx_adv(s)),
                        text.push(c),
                        (val * 10 + d) as i64,
                        has_dot,
                        overflow,
                    )
                }
            } else if c == '.' && !has_dot {
                lx_scan_num(lx_strict(s, lx_adv(s)), text.push(c), val, true, overflow)
            } else {
                (s, text, val, has_dot, overflow)
            }
        },
    }
}

/// Scanning the maximal run of name characters.
pub open spec fn lx_scan_ident(s: LexState, acc: Seq<char>) -> (LexState, Seq<char>)
    decreases lx_togo(s),
{
    match lx_read(s) {
        None => (s, acc),
        Some(c) => {
            let u = c as u32;
            if (65 <= u <= 90) || (97 <= u <= 122) || (48 <= u <= 57) || c == '_' {
                lx_scan_ident(lx_strict(s, lx_adv(s)), acc.push(c))
            } else {
                (s, acc)
            }
        },
    }
}

/// The keyword a spelling stands for, or an identifier.
pub open spec fn keyword_view(s: Seq<char>) -> TokenView {
    if s == seq!['i', 'f'] {
        TokenView::If
    } else if s == seq!['e', 'l', 's', 'e'] {
        TokenView::Else
    } else if s == seq!['w', 'h', 'i', 'l', 'e'] {
        TokenView::While
    } else if s == seq!['r', 'e', 't', 'u', 'r', 'n'] {
        TokenView::Return
    } else if s == seq!['i', 'n', 't'] {
        TokenView::Int
    } else if s == seq!['c', 'h', 'a', 'r'] {
        TokenView::Char
    } else if s == seq!['s', 'i', 'z', 'e', 'o', 'f'] {
        TokenView::Sizeof
    } else if s == seq!['e', 'n', 'u', 'm'] {
        TokenView::Enum
    } else {
        TokenView::Id(s)
    }
}

/// The character an escape letter denotes.
pub open spec fn spec_escape(e: char) -> char {
    match e {
        'n' => '\n',
        't' => '\t',
        'r' => '\r',
        '\\' => '\\',
        '"' => '"',
        '\'' => '\'',
        other => other,
    }
}

/// Scanning a string literal's body up to and through its closing
/// quote, escape sequences resolved.
pub open spec fn lx_scan_str(s: LexState, acc: Seq<char>) -> (LexState, Seq<char>)
    decreases lx_togo(s),
{
    match lx_read(s) {
        None => (s, acc),
        Some(c) => {
            if c == '"' {
                (lx_adv(s), acc)
            } else if c == '\\' {
                let s1 = lx_adv(s);
                match lx_read(s1) {
                    Some(e) => lx_scan_str(lx_strict(s, lx_adv(s1)), acc.push(spec_escape(e))),
                    None => (s1, acc),
                }
            } else {
                lx_scan_str(lx_strict(s, lx_adv(s)), acc.push(c))
            }
        },
    }
}

/// Reading a character literal after its opening quote: the character
/// it denotes, the closing quote consumed if present.
pub open spec fn lx_char_lit(s: LexState) -> (LexState, char) {
    let s1 = lx_adv(s);
    let body = (match lx_read(s1) {
        None => (s1, '\0'),
        Some(c) => {
            if c == '\\' {
                let s2 = lx_adv(s1);
                match lx_read(s2) {
                    Some(e) => (lx_adv(s2), spec_escape(e)),
                    None => (s2, '\0'),
                }
            } else {
                (lx_adv(s1), c)
            }
        },
    });
    let s3 = body.0;
    let ch = body.1;
    if lx_read(s3) == Some('\'') {
        (lx_adv(s3), ch)
    } else {
        (s3, ch)
    }
}

/// One tokenization step: skip whitespace and comments, then read the
/// next token -- a number, a keyword or identifier, a string or char
/// literal, an operator with maximal munch, or the end marker -- with
/// the line it is reported on; an unknown character is skipped.  A
/// decimal integer literal that does not fit in 64 signed bits is the
/// one fatal lex error.
pub open spec fn spec_next_token(s: LexState) -> (
    Result<(TokenView, usize), LexError>,
    LexState,
)
    decreases lx_togo(s),
{
    let sk = lx_skip_ws(s);
    match lx_read(sk) {
        None => (Ok((TokenView::Eof, sk.line)), sk),
        Some(c) => {
            let u = c as u32;
            if 48 <= u <= 57 {
                let scan = lx_scan_num(sk, Seq::empty(), 0, false, false);
                let s2 = scan.0;
                if scan.3 {
                    (Ok((TokenView::Float(scan.1), s2.line)), s2)
                } else if scan.4 {
                    (Err(LexError::IntLiteralTooLarge), s2)
                } else {
                    (Ok((TokenView::Num(scan.2), s2.line)), s2)
                }
            } else if (65 <= u <= 90) || (97 <= u <= 122) || c == '_' {
                let scan = lx_scan_ident(sk, Seq::empty());
                (Ok((keyword_view(scan.1), sk.line)), scan.0)
            } else if c == '"' {
                let scan = lx_scan_str(lx_adv(sk), Seq::empty());
                (Ok((TokenView::Str(scan.1), sk.line)), scan.0)
            } else if c == '\'' {
                let scan = lx_char_lit(sk);
                (Ok((TokenView::CharLiteral(scan.1), sk.line)), scan.0)
            } else {
                let s1 = lx_adv(sk);
                let two = lx_read(s1);
                if c == '=' {
                    if two == Some('=') {
                        (Ok((TokenView::Eq, sk.line)), lx_adv(s1))
                    } else {
                        (Ok((TokenView::Assign, sk.line)), s1)
                    }
                } else if c == '!' {
                    if two == Some('=') {
                        (Ok((TokenView::Ne, sk.line)), lx_adv(s1))
                    } else {
                        (Ok((TokenView::Not, sk.line)), s1)
                    }
                } else if c == '<' {
                    if two == Some('=') {
                        (Ok((TokenView::Le, sk.line)), lx_adv(s1))
                    } else if two == Some('<') {
                        (Ok((TokenView::Shl, sk.line)), lx_adv(s1))
                    } else {
                        (Ok((TokenView::Lt, sk.line)), s1)
                    }
                } else if c == '>' {
                    if two == Some('=') {
                        (Ok((TokenView::Ge, sk.line)), lx_adv(s1))
                    } else if two == Some('>') {
                        (Ok((TokenView::Shr, sk.line)), lx_adv(s1))
                    } else {
                        (Ok((TokenView::Gt, sk.line)), s1)
                    }
                } else if c == '&' {
                    if two == Some('&') {
                        (Ok((TokenView::Lan, sk.line)), lx_adv(s1))
                    } else {
                        (Ok((TokenView::And, sk.line)), s1)
                    }
                } else if c == '|' {
                    if two == Some('|') {
                        (Ok((TokenView::Lor, sk.line)), lx_adv(s1))
                    } else {
                        (Ok((TokenView::Or, sk.line)), s1)
                    }
                } else if c == '+' {
                    if two == Some('+') {
                        (Ok((TokenView::Inc, sk.line)), lx_adv(s1))
                    } else {
                        (Ok((TokenView::Add, sk.line)), s1)
                    }
                } else if c == '-' {
                    if two == Some('-') {
                        (Ok((TokenView::Dec, sk.line)), lx_adv(s1))
                    } else {
                        (Ok((TokenView::Sub, sk.line)), s1)
                    }
                } else if c == '^' {
                    (Ok((TokenView::Xor, sk.line)), s1)
                } else if c == '*' {
                    (Ok((TokenView::Mul, sk.line)), s1)
                } else if c == '/' {
                    (Ok((TokenView::Div, sk.line)), s1)
                } else if c == '%' {
                    (Ok((TokenView::Mod, sk.line)), s1)
                } else if c == '?' {
                    (Ok((TokenView::Cond, sk.line)), s1)
                } else if c == ':' {
                    (Ok((TokenView::Colon, sk.line)), s1)
                } else if c == ';' {
                    (Ok((TokenView::Semicolon, sk.line)), s1)
                } else if c == ',' {
                    (Ok((TokenView::Comma, sk.line)), s1)
                } else if c == '(' {
                    (Ok((TokenView::LParen, sk.line)), s1)
                } else if c == ')' {
                    (Ok((TokenView::RParen, sk.line)), s1)
                } else if c == '{' {
                    (Ok((TokenView::LBrace, sk.line)), s1)
                } else if c == '}' {
                    (Ok((TokenView::RBrace, sk.line)), s1)
                } else if c == '[' {
                    (Ok((TokenView::LBracket, sk.line)), s1)
                } else if c == ']' {
                    (Ok((TokenView::RBracket, sk.line)), s1)
                } else {
                    spec_next_token(lx_strict(s, s1))
                }
            }
        },
    }
}

/// Tokenizing a whole text: the tokens before the end marker, each
/// with its line, and the lex error that cut tokenization short, if
/// one did.
pub open spec fn spec_tokenize(s: LexState, acc: Seq<(TokenView, usize)>) -> (
    Seq<(TokenView, usize)>,
    Option<LexError>,
)
    decreases lx_togo(s),
{
    match spec_next_token(s) {
        (Err(e), s2) => (acc, Some(e)),
        (Ok(pair), s2) => {
            if pair.0 is Eof {
                (acc, None)
            } else {
                spec_tokenize(lx_strict(s, s2), acc.push(pair))
            }
        },
    }
}

/// Turns source text into tokens, one per call, keeping a cursor and
/// the current line number for diagnostics.
pub struct Lexer {
    /// The source text, one character per entry.
    pub chars: Vec<char>,
    /// How many characters have been consumed.
    pub pos: usize,
    /// The line the cursor stands on, starting at 1.
    pub line: usize,
}

impl Lexer {
    /// The characters this lexer reads.
    pub open spec fn spec_chars(self) -> Seq<char> {
        self.chars@
    }

    /// The cursor: how many characters have been consumed.
    pub open spec fn spec_pos(self) -> int {
        self.pos as int
    }

    /// The line the cursor stands on, starting at 1.
    pub open spec fn spec_line(self) -> int {
        self.line as int
    }

    /// The cursor lies within the text, which a vector holds.
    pub open spec fn wf(self) -> bool {
        self.spec_pos() <= self.spec_chars().len() && self.spec_chars().len() <= usize::MAX
    }

    /// This lexer's state, abstracted.
    pub open spec fn labs(self) -> LexState {
        LexState { chars: self.chars@, pos: self.pos, line: self.line }
    }

    /// A lexer at the start of the given source text.
    #[verifier::loop_isolation(false)]
    pub fn new(source: &str) -> (lx: Lexer)
        ensures
            lx.wf(),
            lx.spec_chars() == source@,
            lx.spec_pos() == 0,
            lx.spec_line() == 1,
    {
        let n = source.unicode_len();
        let mut chars: Vec<char> = Vec::new();
        let mut i: usize = 0;
        while i < n
            invariant
                n == source@.len(),
                i <= n,
                chars@ == source@.subrange(0, i as int),
            decreases n - i,
        {
            let c = source.get_char(i);
            chars.push(c);
            i += 1;
            assert(chars@ =~= source@.subrange(0, i as int));
        }
        assert(chars@ =~= source@);
        Lexer { chars, pos: 0, line: 1 }
    }

    /// Peek the upcoming character without consuming.
    fn peek(&self) -> (r: Option<char>)
        requires
            self.wf(),
        ensures
            r matches Some(c) ==> self.spec_pos() < self.spec_chars().len() && c
                == self.spec_chars()[self.spec_pos()],
            r is None ==> self.spec_pos() == self.spec_chars().len(),
            r == lx_read(self.labs()),
    {
        if self.pos < self.chars.len() {
            Some(self.chars[self.pos])
        } else {
            None
        }
    }

    /// Peek one character past the upcoming one.
    fn peek2(&self) -> (r: Option<char>)
        requires
            self.wf(),
        ensures
            r matches Some(c) ==> self.spec_pos() + 1 < self.spec_chars().len() && c
                == self.spec_chars()[self.spec_pos() + 1],
            r == lx_read(lx_adv(self.labs())),
    {
        if self.pos < usize::MAX && self.pos + 1 < self.chars.len() {
            Some(self.chars[self.pos + 1])
        } else {
            None
        }
    }

    /// Consume the next character, updating the line count on a
    /// newline.
    fn bump(&mut self) -> (r: Option<char>)
        requires
            old(self).wf(),
        ensures
            final(self).wf(),
            final(self).spec_chars() == old(self).spec_chars(),
            final(self).spec_line() >= old(self).spec_line(),
            match r {
                Some(c) => old(self).spec_pos() < old(self).spec_chars().len() && c == old(
                    self,
                ).spec_chars()[old(self).spec_pos()] && final(self).spec_pos() == old(
                    self,
                ).spec_pos() + 1,
                None => old(self).spec_pos() == old(self).spec_chars().len() && *final(self)
                    == *old(self),
            },
            r == lx_read(old(self).labs()),
            final(self).labs() == lx_adv(old(self).labs()),
    {
        if self.pos < self.chars.len() {
            let c = self.chars[self.pos];
            self.pos = self.pos + 1;
            if c == '\n' && self.line < usize::MAX {
                self.line = self.line + 1;
            }
            Some(c)
        } else {
            None
        }
    }

    /// Skip whitespace and `//` comments.
    #[verifier::loop_isolation(false)]
    #[verifier::rlimit(100)]
    #[verifier::spinoff_prover]
    fn skip_whitespace_and_comments(&mut self)
        requires
            old(self).wf(),
        ensures
            final(self).wf(),
            final(self).spec_chars() == old(self).spec_chars(),
            final(self).spec_pos() >= old(self).spec_pos(),
            final(self).spec_line() >= old(self).spec_line(),
            final(self).labs() == lx_skip_ws(old(self).labs()),
    {
        loop
            invariant
                self.wf(),
                self.spec_chars() == old(self).spec_chars(),
                self.spec_pos() >= old(self).spec_pos(),
                self.spec_line() >= old(self).spec_line(),
                lx_skip_ws(old(self).labs()) == lx_skip_ws(self.labs()),
            decreases self.spec_chars().len() - self.spec_pos(),
        {
            let ghost pit = self.labs();
            match self.peek() {
                Some(c) => {
                    if c == ' ' || c == '\t' || c == '\n' || c == '\r' || c == '\u{0B}' || c
                        == '\u{0C}' {
                        self.bump();
                        proof {
                            assert(lx_strict(pit, lx_adv(pit)) == lx_adv(pit));
                            assert(lx_skip_ws(pit) == lx_skip_ws(self.labs()));
                        }
                    } else if c == '/' {
                        let two = self.peek2();
                        if two == Some('/') {
                            self.bump();
                            self.bump();
                            let ghost ce = self.labs();
                            proof {
                                assert(ce == lx_adv(lx_adv(pit)));
                            }
                            loop
                                invariant
                                    self.wf(),
                                    self.spec_chars() == old(self).spec_chars(),
                                    self.spec_pos() >= old(self).spec_pos(),
                                    self.spec_pos() >= ce.pos,
                                    self.spec_line() >= old(self).spec_line(),
                                    lx_skip_line(ce) == lx_skip_line(self.labs()),
                                decreases self.spec_chars().len() - self.spec_pos(),
                            {
                                let ghost cpit = self.labs();
                                match self.bump() {
                                    Some(c2) => {
                                        if c2 == '\n' {
                                            proof {
                                                assert(lx_skip_line(cpit) == self.labs());
                                            }
                                            break ;
                                        }
                                        proof {
                                            assert(lx_strict(cpit, lx_adv(cpit)) == lx_adv(cpit));
                                            assert(lx_skip_line(cpit) == lx_skip_line(
                                                self.labs(),
                                            ));
                                        }
                                    },
                                    None => {
                                        proof {
                                            assert(lx_skip_line(cpit) == self.labs());
                                        }
                                        break ;
                                    },
                                }
                            }
                            proof {
                                assert(self.labs() == lx_skip_line(ce));
                                assert(lx_strict(pit, lx_skip_line(lx_adv(lx_adv(pit))))
                                    == self.labs());
                                assert(lx_skip_ws(pit) == lx_skip_ws(self.labs()));
                            }
                        } else {
                            proof {
                                assert(lx_skip_ws(pit) == pit);
                            }
                            break ;
                        }
                    } else {
                        proof {
                            assert(lx_skip_ws(pit) == pit);
                        }
                        break ;
                    }
                },
                None => {
                    proof {
                        assert(lx_skip_ws(pit) == pit);
                    }
                    break ;
                },
            }
        }
    }

    /// Lex a run of digits with at most one dot into either an integer
    /// token or a float token carrying the literal's text.
    #[verifier::loop_isolation(false)]
    fn lex_number(&mut self) -> (r: Result<Token, LexError>)
        requires
            old(self).wf(),
            old(self).spec_pos() < old(self).spec_chars().len(),
            is_digit(old(self).spec_chars()[old(self).spec_pos()]),
        ensures
            final(self).wf(),
            final(self).spec_chars() == old(self).spec_chars(),
            final(self).spec_pos() > old(self).spec_pos(),
            r matches Ok(t) ==> !(t.kind matches TokenKind::Eof),
            ({
                let scan = lx_scan_num(old(self).labs(), Seq::empty(), 0, false, false);
                &&& final(self).labs() == scan.0
                &&& (match r {
                    Ok(t) => t.line == scan.0.line && (if scan.3 {
                        token_view(t.kind) == TokenView::Float(scan.1)
                    } else {
                        !scan.4 && token_view(t.kind) == TokenView::Num(scan.2)
                    }),
                    Err(e) => !scan.3 && scan.4 && e == LexError::IntLiteralTooLarge,
                })
            }),
    {
        let ghost z0 = old(self).labs();
        let mut text = String::new();
        let mut has_dot = false;
        let mut val: i64 = 0;
        let mut overflow = false;
        loop
            invariant
                self.wf(),
                self.spec_chars() == old(self).spec_chars(),
                self.spec_pos() > old(self).spec_pos() || (self.spec_pos() == old(
                    self,
                ).spec_pos() && self.spec_pos() < self.spec_chars().len() && is_digit(
                    self.spec_chars()[self.spec_pos()],
                )),
                0 <= val,
                lx_scan_num(z0, Seq::empty(), 0, false, false) == lx_scan_num(
                    self.labs(),
                    text@,
                    val,
                    has_dot,
                    overflow,
                ),
            decreases self.spec_chars().len() - self.spec_pos(),
        {
            let ghost pit = self.labs();
            let ghost tpre = text@;
            let ghost vpre = val;
            let ghost dpre = has_dot;
            let ghost opre = overflow;
            match self.peek() {
                Some(c) => {
                    let u = c as u32;
                    if 48 <= u && u <= 57 {
                        let d = (u - 48) as i64;
                        if val > (i64::MAX - d) / 10 {
                            overflow = true;
                        } else {
                            proof {
                                vstd::arithmetic::div_mod::lemma_fundamental_div_mod(
                                    (i64::MAX - d) as int,
                                    10,
                                );
                            }
                            val = val * 10 + d;
                        }
                        string_push_char(&mut text, c);
                        self.bump();
                        proof {
                            assert(lx_strict(pit, lx_adv(pit)) == lx_adv(pit));
                            assert(lx_scan_num(pit, tpre, vpre, dpre, opre) == lx_scan_num(
                                self.labs(),
                                text@,
                                val,
                                has_dot,
                                overflow,
                            ));
                        }
                    } else if c == '.' && !has_dot {
                        has_dot = true;
                        string_push_char(&mut text, c);
                        self.bump();
                        proof {
                            assert(lx_strict(pit, lx_adv(pit)) == lx_adv(pit));
                            assert(lx_scan_num(pit, tpre, vpre, dpre, opre) == lx_scan_num(
                                self.labs(),
                                text@,
                                val,
                                has_dot,
                                overflow,
                            ));
                        }
                    } else {
                        proof {
                            assert(lx_scan_num(pit, tpre, vpre, dpre, opre) == (
                                pit,
                                tpre,
                                vpre,
                                dpre,
                                opre,
                            ));
                        }
                        break ;
                    }
                },
                None => {
                    proof {
                        assert(lx_scan_num(pit, tpre, vpre, dpre, opre) == (
                            pit,
                            tpre,
                            vpre,
                            dpre,
                            opre,
                        ));
                    }
                    break ;
                },
            }
        }
        let line = self.line;
        if has_dot {
            Ok(Token { kind: TokenKind::Float(text), line })
        } else if overflow {
            Err(LexError::IntLiteralTooLarge)
        } else {
            Ok(Token { kind: TokenKind::Num(val), line })
        }
    }

    /// Lex an identifier or keyword.
    #[verifier::loop_isolation(false)]
    fn lex_identifier_or_keyword(&mut self) -> (t: Token)
        requires
            old(self).wf(),
            old(self).spec_pos() < old(self).spec_chars().len(),
            is_ident_start(old(self).spec_chars()[old(self).spec_pos()]),
        ensures
            final(self).wf(),
            final(self).spec_chars() == old(self).spec_chars(),
            final(self).spec_pos() > old(self).spec_pos(),
            !(t.kind matches TokenKind::Eof),
            ({
                let scan = lx_scan_ident(old(self).labs(), Seq::empty());
                &&& final(self).labs() == scan.0
                &&& token_view(t.kind) == keyword_view(scan.1)
                &&& t.line == old(self).labs().line
            }),
    {
        let ghost z0 = old(self).labs();
        let line = self.line;
        let mut buf: Vec<char> = Vec::new();
        loop
            invariant
                self.wf(),
                self.spec_chars() == old(self).spec_chars(),
                self.spec_pos() > old(self).spec_pos() || (self.spec_pos() == old(
                    self,
                ).spec_pos() && self.spec_pos() < self.spec_chars().len() && is_ident_start(
                    self.spec_chars()[self.spec_pos()],
                )),
                lx_scan_ident(z0, Seq::empty()) == lx_scan_ident(self.labs(), buf@),
            decreases self.spec_chars().len() - self.spec_pos(),
        {
            let ghost pit = self.labs();
            let ghost bpre = buf@;
            match self.peek() {
                Some(c) => {
                    let u = c as u32;
                    if (65 <= u && u <= 90) || (97 <= u && u <= 122) || (48 <= u && u <= 57) || c
                        == '_' {
                        buf.push(c);
                        self.bump();
                        proof {
                            assert(lx_strict(pit, lx_adv(pit)) == lx_adv(pit));
                            assert(lx_scan_ident(pit, bpre) == lx_scan_ident(self.labs(), buf@));
                        }
                    } else {
                        proof {
                            assert(lx_scan_ident(pit, bpre) == (pit, bpre));
                        }
                        break ;
                    }
                },
                None => {
                    proof {
                        assert(lx_scan_ident(pit, bpre) == (pit, bpre));
                    }
                    break ;
                },
            }
        }
        let kind = Self::keyword_or_ident(&buf);
        Token { kind, line }
    }

    /// The keyword a spelling stands for, or an identifier token.
    #[verifier::loop_isolation(false)]
    fn keyword_or_ident(buf: &Vec<char>) -> (k: TokenKind)
        ensures
            !(k matches TokenKind::Eof),
            token_view(k) == keyword_view(buf@),
    {
        if Self::chars_eq2(buf, 'i', 'f') {
            TokenKind::If
        } else if Self::chars_eq4(buf, 'e', 'l', 's', 'e') {
            TokenKind::Else
        } else if Self::chars_eq5(buf, 'w', 'h', 'i', 'l', 'e') {
            TokenKind::While
        } else if Self::chars_eq6(buf, 'r', 'e', 't', 'u', 'r', 'n') {
            TokenKind::Return
        } else if Self::chars_eq3(buf, 'i', 'n', 't') {
            TokenKind::Int
        } else if Self::chars_eq4(buf, 'c', 'h', 'a', 'r') {
            TokenKind::Char
        } else if Self::chars_eq6(buf, 's', 'i', 'z', 'e', 'o', 'f') {
            TokenKind::Sizeof
        } else if Self::chars_eq4(buf, 'e', 'n', 'u', 'm') {
            TokenKind::Enum
        } else {
            let mut s = String::new();
            let mut i: usize = 0;
            while i < buf.len()
                invariant
                    i <= buf@.len(),
                    s@ == buf@.subrange(0, i as int),
                decreases buf@.len() - i,
            {
                string_push_char(&mut s, buf[i]);
                i += 1;
                assert(s@ =~= buf@.subrange(0, i as int));
            }
            proof {
                assert(s@ =~= buf@);
            }
            TokenKind::Id(s)
        }
    }

    fn chars_eq2(buf: &Vec<char>, a: char, b: char) -> (r: bool)
        ensures
            r == (buf@ == seq![a, b]),
    {
        let r = buf.len() == 2 && buf[0] == a && buf[1] == b;
        proof {
            if r {
                assert(buf@ =~= seq![a, b]);
            }
        }
        r
    }

    fn chars_eq3(buf: &Vec<char>, a: char, b: char, c: char) -> (r: bool)
        ensures
            r == (buf@ == seq![a, b, c]),
    {
        let r = buf.len() == 3 && buf[0] == a && buf[1] == b && buf[2] == c;
        proof {
            if r {
                assert(buf@ =~= seq![a, b, c]);
            }
        }
        r
    }

    fn chars_eq4(buf: &Vec<char>, a: char, b: char, c: char, d: char) -> (r: bool)
        ensures
            r == (buf@ == seq![a, b, c, d]),
    {
        let r = buf.len() == 4 && buf[0] == a && buf[1] == b && buf[2] == c && buf[3] == d;
        proof {
            if r {
                assert(buf@ =~= seq![a, b, c, d]);
            }
        }
        r
    }

    fn chars_eq5(buf: &Vec<char>, a: char, b: char, c: char, d: char, e: char) -> (r: bool)
        ensures
            r == (buf@ == seq![a, b, c, d, e]),
    {
        let r = buf.len() == 5 && buf[0] == a && buf[1] == b && buf[2] == c && buf[3] == d && buf[4]
            == e;
        proof {
            if r {
                assert(buf@ =~= seq![a, b, c, d, e]);
            }
        }
        r
    }

    fn chars_eq6(buf: &Vec<char>, a: char, b: char, c: char, d: char, e: char, f: char) -> (r: bool)
        ensures
            r == (buf@ == seq![a, b, c, d, e, f]),
    {
        let r = buf.len() == 6 && buf[0] == a && buf[1] == b && buf[2] == c && buf[3] == d && buf[4]
            == e && buf[5] == f;
        proof {
            if r {
                assert(buf@ =~= seq![a, b, c, d, e, f]);
            }
        }
        r
    }

    /// Map an escape character to the character it denotes.
    fn escape_char(esc: char) -> (c: char)
        ensures
            c == spec_escape(esc),
    {
        match esc {
            'n' => '\n',
            't' => '\t',
            'r' => '\r',
            '\\' => '\\',
            '"' => '"',
            '\'' => '\'',
            other => other,
        }
    }

    /// Lex a string literal, resolving escape sequences.
    #[verifier::loop_isolation(false)]
    fn lex_string_literal(&mut self) -> (t: Token)
        requires
            old(self).wf(),
            old(self).spec_pos() < old(self).spec_chars().len(),
        ensures
            final(self).wf(),
            final(self).spec_chars() == old(self).spec_chars(),
            final(self).spec_pos() > old(self).spec_pos(),
            !(t.kind matches TokenKind::Eof),
            ({
                let scan = lx_scan_str(lx_adv(old(self).labs()), Seq::empty());
                &&& final(self).labs() == scan.0
                &&& token_view(t.kind) == TokenView::Str(scan.1)
                &&& t.line == old(self).labs().line
            }),
    {
        let line = self.line;
        self.bump();
        let ghost z1 = self.labs();
        let mut s = String::new();
        loop
            invariant
                self.wf(),
                self.spec_chars() == old(self).spec_chars(),
                self.spec_pos() > old(self).spec_pos(),
                lx_scan_str(z1, Seq::empty()) == lx_scan_str(self.labs(), s@),
            decreases self.spec_chars().len() - self.spec_pos(),
        {
            let ghost pit = self.labs();
            let ghost spre = s@;
            match self.peek() {
                Some(c) => {
                    if c == '"' {
                        self.bump();
                        proof {
                            assert(lx_scan_str(pit, spre) == (self.labs(), spre));
                        }
                        break ;
                    }
                    if c == '\\' {
                        self.bump();
                        match self.bump() {
                            Some(esc) => {
                                string_push_char(&mut s, Self::escape_char(esc));
                                proof {
                                    assert(lx_strict(pit, lx_adv(lx_adv(pit)))
                                        == lx_adv(lx_adv(pit)));
                                    assert(lx_scan_str(pit, spre) == lx_scan_str(
                                        self.labs(),
                                        s@,
                                    ));
                                }
                            },
                            None => {
                                proof {
                                    assert(lx_scan_str(pit, spre) == (self.labs(), spre));
                                    assert(lx_scan_str(self.labs(), s@) == (self.labs(), s@));
                                }
                            },
                        }
                    } else {
                        string_push_char(&mut s, c);
                        self.bump();
                        proof {
                            assert(lx_strict(pit, lx_adv(pit)) == lx_adv(pit));
                            assert(lx_scan_str(pit, spre) == lx_scan_str(self.labs(), s@));
                        }
                    }
                },
                None => {
                    proof {
                        assert(lx_scan_str(pit, spre) == (pit, spre));
                    }
                    break ;
                },
            }
        }
        Token { kind: TokenKind::Str(s), line }
    }

    /// Lex a character literal, resolving escape sequences.
    #[verifier::loop_isolation(false)]
    fn lex_char_literal(&mut self) -> (t: Token)
        requires
            old(self).wf(),
            old(self).spec_pos() < old(self).spec_chars().len(),
        ensures
            final(self).wf(),
            final(self).spec_chars() == old(self).spec_chars(),
            final(self).spec_pos() > old(self).spec_pos(),
            !(t.kind matches TokenKind::Eof),
            ({
                let scan = lx_char_lit(old(self).labs());
                &&& final(self).labs() == scan.0
                &&& token_view(t.kind) == TokenView::CharLiteral(scan.1)
                &&& t.line == old(self).labs().line
            }),
    {
        let line = self.line;
        self.bump();
        let mut ch = '\0';
        match self.bump() {
            Some(c) => {
                if c == '\\' {
                    match self.bump() {
                        Some(esc) => {
                            ch = Self::escape_char(esc);
                        },
                        None => {},
                    }
                } else {
                    ch = c;
                }
            },
            None => {},
        }
        if let Some('\'') = self.peek() {
            self.bump();
        }
        Token { kind: TokenKind::CharLiteral(ch), line }
    }

    /// Return the next token, or the end-of-input marker once the text
    /// is exhausted: exactly the token the specification-level
    /// tokenization step prescribes for the text at the cursor, with
    /// its line.  Each call either consumes at least one character or
    /// reports `Eof` with the cursor at the end of the text; an
    /// unknown character is skipped, and a malformed integer literal is
    /// a fatal lex error.
    pub fn next_token(&mut self) -> (r: Result<Token, LexError>)
        requires
            old(self).wf(),
        ensures
            final(self).wf(),
            final(self).spec_chars() == old(self).spec_chars(),
            final(self).spec_pos() >= old(self).spec_pos(),
            match r {
                Ok(t) => ((t.kind matches TokenKind::Eof) ==> final(self).spec_pos()
                    == final(self).spec_chars().len()) && ((t.kind matches TokenKind::Eof)
                    || final(self).spec_pos() > old(self).spec_pos()),
                Err(_) => true,
            },
            ({
                let step = spec_next_token(old(self).labs());
                &&& final(self).labs() == step.1
                &&& (match r {
                    Ok(t) => step.0 == Ok::<(TokenView, usize), LexError>((
                        token_view(t.kind),
                        t.line,
                    )),
                    Err(e) => step.0 == Err::<(TokenView, usize), LexError>(e),
                })
            }),
        decreases old(self).spec_chars().len() - old(self).spec_pos(),
    {
        let ghost z0 = old(self).labs();
        self.skip_whitespace_and_comments();
        let ghost sk = self.labs();
        proof {
            assert(sk == lx_skip_ws(z0));
        }
        let line = self.line;
        let c = match self.peek() {
            Some(c) => c,
            None => {
                proof {
                    assert(spec_next_token(z0) == (
                        Ok::<(TokenView, usize), LexError>((TokenView::Eof, sk.line)),
                        sk,
                    ));
                }
                return Ok(Token { kind: TokenKind::Eof, line });
            },
        };
        let u = c as u32;
        if 48 <= u && u <= 57 {
            let rr = self.lex_number();
            proof {
                assert(spec_next_token(z0).1 == self.labs());
                assert(match rr {
                    Ok(t) => spec_next_token(z0).0 == Ok::<(TokenView, usize), LexError>((
                        token_view(t.kind),
                        t.line,
                    )),
                    Err(e) => spec_next_token(z0).0 == Err::<(TokenView, usize), LexError>(e),
                });
            }
            return rr;
        }
        if (65 <= u && u <= 90) || (97 <= u && u <= 122) || c == '_' {
            let t = self.lex_identifier_or_keyword();
            proof {
                assert(spec_next_token(z0) == (
                    Ok::<(TokenView, usize), LexError>((token_view(t.kind), t.line)),
                    self.labs(),
                ));
            }
            return Ok(t);
        }
        if c == '"' {
            let t = self.lex_string_literal();
            proof {
                assert(spec_next_token(z0) == (
                    Ok::<(TokenView, usize), LexError>((token_view(t.kind), t.line)),
                    self.labs(),
                ));
            }
            return Ok(t);
        }
        if c == '\'' {
            let t = self.lex_char_literal();
            proof {
                assert(spec_next_token(z0) == (
                    Ok::<(TokenView, usize), LexError>((token_view(t.kind), t.line)),
                    self.labs(),
                ));
            }
            return Ok(t);
        }
        let kind = match c {
            '=' => {
                self.bump();
                if let Some('=') = self.peek() {
                    self.bump();
                    {
                        proof {
                            assert(spec_next_token(z0) == (
                                Ok::<(TokenView, usize), LexError>((TokenView::Eq, line)),
                                self.labs(),
                            ));
                        }
                        TokenKind::Eq
                    }
                } else {
                    {
                        proof {
                            assert(spec_next_token(z0) == (
                                Ok::<(TokenView, usize), LexError>((TokenView::Assign, line)),
                                self.labs(),
                            ));
                        }
                        TokenKind::Assign
                    }
                }
            },
            '!' => {
                self.bump();
                if let Some('=') = self.peek() {
                    self.bump();
                    {
                        proof {
                            assert(spec_next_token(z0) == (
                                Ok::<(TokenView, usize), LexError>((TokenView::Ne, line)),
                                self.labs(),
                            ));
                        }
                        TokenKind::Ne
                    }
                } else {
                    {
                        proof {
                            assert(spec_next_token(z0) == (
                                Ok::<(TokenView, usize), LexError>((TokenView::Not, line)),
                                self.labs(),
                            ));
                        }
                        TokenKind::Not
                    }
                }
            },
            '<' => {
                self.bump();
                match self.peek() {
                    Some('=') => {
                        self.bump();
                        {
                            proof {
                                assert(spec_next_token(z0) == (
                                    Ok::<(TokenView, usize), LexError>((TokenView::Le, line)),
                                    self.labs(),
                                ));
                            }
                            TokenKind::Le
                        }
                    },
                    Some('<') => {
                        self.bump();
                        {
                            proof {
                                assert(spec_next_token(z0) == (
                                    Ok::<(TokenView, usize), LexError>((TokenView::Shl, line)),
                                    self.labs(),
                                ));
                            }
                            TokenKind::Shl
                        }
                    },
                    _ => {
                        proof {
                            assert(spec_next_token(z0) == (
                                Ok::<(TokenView, usize), LexError>((TokenView::Lt, line)),
                                self.labs(),
                            ));
                        }
                        TokenKind::Lt
                    },
                }
            },
            '>' => {
                self.bump();
                match self.peek() {
                    Some('=') => {
                        self.bump();
                        {
                            proof {
                                assert(spec_next_token(z0) == (
                                    Ok::<(TokenView, usize), LexError>((TokenView::Ge, line)),
                                    self.labs(),
                                ));
                            }
                            TokenKind::Ge
                        }
                    },
                    Some('>') => {
                        self.bump();
                        {
                            proof {
                                assert(spec_next_token(z0) == (
                                    Ok::<(TokenView, usize), LexError>((TokenView::Shr, line)),
                                    self.labs(),
                                ));
                            }
                            TokenKind::Shr
                        }
                    },
                    _ => {
                        proof {
                            assert(spec_next_token(z0) == (
                                Ok::<(TokenView, usize), LexError>((TokenView::Gt, line)),
                                self.labs(),
                            ));
                        }
                        TokenKind::Gt
                    },
                }
            },
            '&' => {
                self.bump();
                if let Some('&') = self.peek() {
                    self.bump();
                    {
                        proof {
                            assert(spec_next_token(z0) == (
                                Ok::<(TokenView, usize), LexError>((TokenView::Lan, line)),
                                self.labs(),
                            ));
                        }
                        TokenKind::Lan
                    }
                } else {
                    {
                        proof {
                            assert(spec_next_token(z0) == (
                                Ok::<(TokenView, usize), LexError>((TokenView::And, line)),
                                self.labs(),
                            ));
                        }
                        TokenKind::And
                    }
                }
            },
            '|' => {
                self.bump();
                if let Some('|') = self.peek() {
                    self.bump();
                    {
                        proof {
                            assert(spec_next_token(z0) == (
                                Ok::<(TokenView, usize), LexError>((TokenView::Lor, line)),
                                self.labs(),
                            ));
                        }
                        TokenKind::Lor
                    }
                } else {
                    {
                        proof {
                            assert(spec_next_token(z0) == (
                                Ok::<(TokenView, usize), LexError>((TokenView::Or, line)),
                                self.labs(),
                            ));
                        }
                        TokenKind::Or
                    }
                }
            },
            '^' => {
                self.bump();
                {
                    proof {
                        assert(spec_next_token(z0) == (
                            Ok::<(TokenView, usize), LexError>((TokenView::Xor, line)),
                            self.labs(),
                        ));
                    }
                    TokenKind::Xor
                }
            },
            '+' => {
                self.bump();
                if let Some('+') = self.peek() {
                    self.bump();
                    {
                        proof {
                            assert(spec_next_token(z0) == (
                                Ok::<(TokenView, usize), LexError>((TokenView::Inc, line)),
                                self.labs(),
                            ));
                        }
                        TokenKind::Inc
                    }
                } else {
                    {
                        proof {
                            assert(spec_next_token(z0) == (
                                Ok::<(TokenView, usize), LexError>((TokenView::Add, line)),
                                self.labs(),
                            ));
                        }
                        TokenKind::Add
                    }
                }
            },
            '-' => {
                self.bump();
                if let Some('-') = self.peek() {
                    self.bump();
                    {
                        proof {
                            assert(spec_next_token(z0) == (
                                Ok::<(TokenView, usize), LexError>((TokenView::Dec, line)),
                                self.labs(),
                            ));
                        }
                        TokenKind::Dec
                    }
                } else {
                    {
                        proof {
                            assert(spec_next_token(z0) == (
                                Ok::<(TokenView, usize), LexError>((TokenView::Sub, line)),
                                self.labs(),
                            ));
                        }
                        TokenKind::Sub
                    }
                }
            },
            '*' => {
                self.bump();
                {
                    proof {
                        assert(spec_next_token(z0) == (
                            Ok::<(TokenView, usize), LexError>((TokenView::Mul, line)),
                            self.labs(),
                        ));
                    }
                    TokenKind::Mul
                }
            },
            '/' => {
                self.bump();
                {
                    proof {
                        assert(spec_next_token(z0) == (
                            Ok::<(TokenView, usize), LexError>((TokenView::Div, line)),
                            self.labs(),
                        ));
                    }
                    TokenKind::Div
                }
            },
            '%' => {
                self.bump();
                {
                    proof {
                        assert(spec_next_token(z0) == (
                            Ok::<(TokenView, usize), LexError>((TokenView::Mod, line)),
                            self.labs(),
                        ));
                    }
                    TokenKind::Mod
                }
            },
            '?' => {
                self.bump();
                {
                    proof {
                        assert(spec_next_token(z0) == (
                            Ok::<(TokenView, usize), LexError>((TokenView::Cond, line)),
                            self.labs(),
                        ));
                    }
                    TokenKind::Cond
                }
            },
            ':' => {
                self.bump();
                {
                    proof {
                        assert(spec_next_token(z0) == (
                            Ok::<(TokenView, usize), LexError>((TokenView::Colon, line)),
                            self.labs(),
                        ));
                    }
                    TokenKind::Colon
                }
            },
            ';' => {
                self.bump();
                {
                    proof {
                        assert(spec_next_token(z0) == (
                            Ok::<(TokenView, usize), LexError>((TokenView::Semicolon, line)),
                            self.labs(),
                        ));
                    }
                    TokenKind::Semicolon
                }
            },
            ',' => {
                self.bump();
                {
                    proof {
                        assert(spec_next_token(z0) == (
                            Ok::<(TokenView, usize), LexError>((TokenView::Comma, line)),
                            self.labs(),
                        ));
                    }
                    TokenKind::Comma
                }
            },
            '(' => {
                self.bump();
                {
                    proof {
                        assert(spec_next_token(z0) == (
                            Ok::<(TokenView, usize), LexError>((TokenView::LParen, line)),
                            self.labs(),
                        ));
                    }
                    TokenKind::LParen
                }
            },
            ')' => {
                self.bump();
                {
                    proof {
                        assert(spec_next_token(z0) == (
                            Ok::<(TokenView, usize), LexError>((TokenView::RParen, line)),
                            self.labs(),
                        ));
                    }
                    TokenKind::RParen
                }
            },
            '{' => {
                self.bump();
                {
                    proof {
                        assert(spec_next_token(z0) == (
                            Ok::<(TokenView, usize), LexError>((TokenView::LBrace, line)),
                            self.labs(),
                        ));
                    }
                    TokenKind::LBrace
                }
            },
            '}' => {
                self.bump();
                {
                    proof {
                        assert(spec_next_token(z0) == (
                            Ok::<(TokenView, usize), LexError>((TokenView::RBrace, line)),
                            self.labs(),
                        ));
                    }
                    TokenKind::RBrace
                }
            },
            '[' => {
                self.bump();
                {
                    proof {
                        assert(spec_next_token(z0) == (
                            Ok::<(TokenView, usize), LexError>((TokenView::LBracket, line)),
                            self.labs(),
                        ));
                    }
                    TokenKind::LBracket
                }
            },
            ']' => {
                self.bump();
                {
                    proof {
                        assert(spec_next_token(z0) == (
                            Ok::<(TokenView, usize), LexError>((TokenView::RBracket, line)),
                            self.labs(),
                        ));
                    }
                    TokenKind::RBracket
                }
            },
            _ => {
                self.bump();
                return self.next_token();
            },
        };
        Ok(Token { kind, line })
    }
}

} // verus!
