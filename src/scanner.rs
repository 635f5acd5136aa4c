use vstd::prelude::*;
use crate::token::{Token, TokenType, TokenView, token_view};

verus! {

/// The character at `p`, or `'\0'` past the end of the text.
pub open spec fn char_at(src: Seq<char>, p: int) -> char {
    if 0 <= p < src.len() { src[p] } else { '\0' }
}

pub open spec fn is_digit_char(c: char) -> bool {
    '0' <= c <= '9'
}

pub open spec fn is_alpha_char(c: char) -> bool {
    ('a' <= c <= 'z') || ('A' <= c <= 'Z')
}

pub open spec fn is_word_char(c: char) -> bool {
    is_digit_char(c) || is_alpha_char(c) || c == '_'
}

/// The reserved word spelled by `s`, or `Identifier`.
pub open spec fn keyword_kind(s: Seq<char>) -> TokenType {
    if s == seq!['a', 'n', 'd'] { TokenType::And }
    else if s == seq!['w', 'h', 'i', 'l', 'e'] { TokenType::While }
    else if s == seq!['v', 'a', 'r'] { TokenType::Var }
    else if s == seq!['t', 'r', 'u', 'e'] { TokenType::True }
    else if s == seq!['p', 'r', 'i', 'n', 't'] { TokenType::Print }
    else if s == seq!['o', 'r'] { TokenType::Or }
    else if s == seq!['n', 'i', 'l'] { TokenType::Nil }
    else if s == seq!['i', 'f'] { TokenType::If }
    else if s == seq!['f', 'o', 'r'] { TokenType::For }
    else if s == seq!['f', 'a', 'l', 's', 'e'] { TokenType::False }
    else if s == seq!['e', 'l', 's', 'e'] { TokenType::Else }
    else { TokenType::Identifier }
}

/// First position from `p` on that holds a newline, or the end of the text.
pub open spec fn line_comment_end(src: Seq<char>, p: int) -> int
    decreases src.len() - p,
{
    if p >= src.len() || src[p] == '\n' { p } else { line_comment_end(src, p + 1) }
}

/// First position from `p` on that starts the closing `*/` of a block comment, or the end
/// of the text.
pub open spec fn block_comment_stop(src: Seq<char>, p: int) -> int
    decreases src.len() - p,
{
    if p >= src.len() || (char_at(src, p) == '*' && char_at(src, p + 1) == '/') {
        p
    } else {
        block_comment_stop(src, p + 1)
    }
}

/// First position from `p` on that does not hold a digit.
pub open spec fn digits_end(src: Seq<char>, p: int) -> int
    decreases src.len() - p,
{
    if p >= src.len() || !is_digit_char(src[p]) { p } else { digits_end(src, p + 1) }
}

/// First position from `p` on that does not hold a letter, digit or underscore.
pub open spec fn word_end(src: Seq<char>, p: int) -> int
    decreases src.len() - p,
{
    if p >= src.len() || !is_word_char(src[p]) { p } else { word_end(src, p + 1) }
}

/// First position from `p` on that holds the closing quote `q`, or the end of the text.
pub open spec fn string_end(src: Seq<char>, p: int, q: char) -> int
    decreases src.len() - p,
{
    if p >= src.len() || src[p] == q { p } else { string_end(src, p + 1, q) }
}

/// The number of newlines in `src[p..e]`.
pub open spec fn newlines(src: Seq<char>, p: int, e: int) -> nat
    decreases e - p,
{
    if e <= p || e > src.len() { 0 } else {
        newlines(src, p, e - 1) + (if src[e - 1] == '\n' { 1nat } else { 0nat })
    }
}

/// End of a number literal that starts at `p`: digits, then a `.` and digits only when a
/// digit follows the dot.
pub open spec fn number_end(src: Seq<char>, p: int) -> int {
    let a = digits_end(src, p);
    if char_at(src, a) == '.' && is_digit_char(char_at(src, a + 1)) {
        digits_end(src, a + 1)
    } else {
        a
    }
}

pub open spec fn single_kind(c: char) -> Option<TokenType> {
    if c == '(' { Some(TokenType::LeftParen) }
    else if c == ')' { Some(TokenType::RightParen) }
    else if c == '{' { Some(TokenType::LeftBrace) }
    else if c == '}' { Some(TokenType::RightBrace) }
    else if c == ',' { Some(TokenType::Comma) }
    else if c == '.' { Some(TokenType::Dot) }
    else if c == '-' { Some(TokenType::Minus) }
    else if c == '+' { Some(TokenType::Plus) }
    else if c == ';' { Some(TokenType::Semicolon) }
    else if c == '*' { Some(TokenType::Star) }
    else if c == '?' { Some(TokenType::Qmark) }
    else if c == ':' { Some(TokenType::Colon) }
    else { None }
}

/// For `=`, `!`, `<`, `>`: the kind alone and the kind when followed by `=`.
pub open spec fn pair_kinds(c: char) -> Option<(TokenType, TokenType)> {
    if c == '=' { Some((TokenType::Equal, TokenType::EqualEqual)) }
    else if c == '!' { Some((TokenType::Bang, TokenType::BangEqual)) }
    else if c == '<' { Some((TokenType::Less, TokenType::LessEqual)) }
    else if c == '>' { Some((TokenType::Greater, TokenType::GreaterEqual)) }
    else { None }
}

pub open spec fn is_quote(c: char) -> bool {
    c == '"' || c == '\'' || c == '`'
}

/// What one step of the scan does at position `p < src.len()` on line `line`: `Err` with
/// the line of a lexical error, or the next position, the next line and the tokens read
/// (none or one).
pub open spec fn scan_step(src: Seq<char>, p: int, line: int) -> Result<(int, int, Seq<TokenView>), (int, LexErrorKind)> {
    let c = src[p];
    let n = char_at(src, p + 1);
    let at_end1 = p + 1 >= src.len();
    if single_kind(c).is_some() {
        Ok((p + 1, line, seq![token_view(single_kind(c).unwrap(), seq![c], line)]))
    } else if c == '/' {
        if !at_end1 && n == '/' {
            Ok((line_comment_end(src, p + 2), line, seq![]))
        } else if !at_end1 && n == '*' {
            let e = block_comment_stop(src, p + 2);
            Ok((e + 2, line + newlines(src, p + 2, e), seq![]))
        } else {
            Ok((p + 1, line, seq![token_view(TokenType::Slash, seq!['/'], line)]))
        }
    } else if pair_kinds(c).is_some() {
        if !at_end1 && n == '=' {
            Ok((p + 2, line, seq![token_view(pair_kinds(c).unwrap().1, seq![c, '='], line)]))
        } else {
            Ok((p + 1, line, seq![token_view(pair_kinds(c).unwrap().0, seq![c], line)]))
        }
    } else if c == ' ' || c == '\t' || c == '\r' {
        Ok((p + 1, line, seq![]))
    } else if c == '\n' {
        Ok((p + 1, line + 1, seq![]))
    } else if is_quote(c) {
        let e = string_end(src, p + 1, c);
        let l = line + newlines(src, p + 1, e);
        if e >= src.len() {
            Err((l, LexErrorKind::UnterminatedString))
        } else {
            Ok((e + 1, l, seq![token_view(TokenType::String, src.subrange(p + 1, e), l)]))
        }
    } else if is_digit_char(c) {
        let e = number_end(src, p + 1);
        Ok((e, line, seq![token_view(TokenType::Number, src.subrange(p, e), line)]))
    } else if is_alpha_char(c) {
        let e = word_end(src, p + 1);
        let w = src.subrange(p, e);
        Ok((e, line, seq![token_view(keyword_kind(w), w, line)]))
    } else {
        Err((line, LexErrorKind::UnexpectedCharacter))
    }
}

/// The scan of `src` from position `p` on line `line`, after the tokens `acc`: all
/// tokens with the end-of-input token appended, or `Err` with the line of the first
/// lexical error.
pub open spec fn scan_from(src: Seq<char>, p: int, line: int, acc: Seq<TokenView>) -> Result<Seq<TokenView>, (int, LexErrorKind)>
    decreases src.len() + 2 - p,
{
    if p < 0 || p >= src.len() {
        Ok(acc.push(token_view(TokenType::EOF, seq!['\0'], line)))
    } else {
        match scan_step(src, p, line) {
            Err(e) => Err(e),
            Ok((q, l, toks)) => if p < q <= src.len() + 2 {
                scan_from(src, q, l, acc + toks)
            } else {
                Err((l, LexErrorKind::UnexpectedCharacter))
            },
        }
    }
}

/// The tokens of `src`, or the line of its first lexical error.
pub open spec fn scan(src: Seq<char>) -> Result<Seq<TokenView>, (int, LexErrorKind)> {
    scan_from(src, 0, 1, seq![])
}

pub open spec fn tokens_view(v: Seq<Token>) -> Seq<TokenView> {
    v.map_values(|t: Token| t@)
}

/// What stopped a scan.
#[derive(Debug, Clone, Copy, PartialEq, Eq, Structural)]
pub enum LexErrorKind {
    UnterminatedString,
    UnexpectedCharacter,
}

/// Turns source text into tokens.
pub struct Scanner {
    source: String,
    chars: Vec<char>,
    start: usize,
    current: usize,
    line: usize,
    tokens: Vec<Token>,
    error_line: Option<usize>,
    error_kind: Option<LexErrorKind>,
}

impl Scanner {
    pub closed spec fn text(&self) -> Seq<char> {
        self.source@
    }

    pub closed spec fn wf(&self) -> bool {
        &&& self.chars@ == self.source@
        &&& self.chars@.len() + 4 <= usize::MAX
    }

    /// The line of the lexical error that stopped the last scan, if it failed.
    pub closed spec fn error_line_view(&self) -> Option<usize> {
        self.error_line
    }

    /// Which lexical error stopped the last scan, if it failed.
    pub closed spec fn error_kind_view(&self) -> Option<LexErrorKind> {
        self.error_kind
    }

    pub fn new(source: String) -> (r: Scanner)
        requires
            source@.len() + 4 <= usize::MAX,
        ensures
            r.wf(),
            r.text() == source@,
            r.error_line_view().is_none(),
            r.error_kind_view().is_none(),
    {
        let n = source.as_str().unicode_len();
        let mut chars: Vec<char> = Vec::new();
        let mut i: usize = 0;
        while i < n
            invariant
                n == source@.len(),
                i <= n,
                chars@ == source@.subrange(0, i as int),
            decreases n - i,
        {
            let c = source.as_str().get_char(i);
            chars.push(c);
            i = i + 1;
        }
        assert(chars@ =~= source@);
        Scanner {
            source,
            chars,
            start: 0,
            current: 0,
            line: 1,
            tokens: Vec::new(),
            error_line: None,
            error_kind: None,
        }
    }

    /// The line of the lexical error that stopped the last scan, if it failed.
    pub fn error_line(&self) -> (r: Option<usize>)
        ensures
            r == self.error_line_view(),
    {
        self.error_line
    }

    /// Which lexical error stopped the last scan, if it failed.
    pub fn error_kind(&self) -> (r: Option<LexErrorKind>)
        ensures
            r == self.error_kind_view(),
    {
        self.error_kind
    }

    /// Scans the whole text: the tokens, ending with one end-of-input token, or `None`
    /// at the first unterminated string or unexpected character.
    pub fn scan_tokens(&mut self) -> (r: Option<Vec<Token>>)
        requires
            old(self).wf(),
        ensures
            final(self).wf(),
            final(self).text() == old(self).text(),
            match scan(old(self).text()) {
                Ok(toks) => r.is_some() && tokens_view(r.unwrap()@) == toks
                    && final(self).error_line_view().is_none() && final(self).error_kind_view().is_none(),
                Err((l, k)) => r.is_none() && final(self).error_line_view() == Some(l as usize)
                    && final(self).error_kind_view() == Some(k),
            },
    {
        self.start = 0;
        self.current = 0;
        self.line = 1;
        self.tokens = Vec::new();
        self.error_line = None;
        self.error_kind = None;
        let ghost src = self.chars@;
        assert(tokens_view(self.tokens@) =~= seq![]);
        while self.current < self.chars.len()
            invariant
                self.wf(),
                src == self.chars@,
                self.source@ == old(self).source@,
                1 <= self.line <= self.current + 1,
                self.current <= src.len() + 2,
                self.error_line.is_none(),
                self.error_kind.is_none(),
                scan_from(src, self.current as int, self.line as int, tokens_view(self.tokens@))
                    == scan(src),
            decreases src.len() + 2 - self.current,
        {
            self.start = self.current;
            let ok = self.scan_token();
            if !ok {
                return None;
            }
        }
        let ghost before = tokens_view(self.tokens@);
        let eof = Token::new(TokenType::EOF, nul_text(), self.line);
        self.tokens.push(eof);
        assert(tokens_view(self.tokens@) =~= before.push(
            token_view(TokenType::EOF, seq!['\0'], self.line as int),
        ));
        let mut out: Vec<Token> = Vec::new();
        core::mem::swap(&mut out, &mut self.tokens);
        Some(out)
    }

    /// Reads one token (or skips blank space or a comment) at the current position.
    /// Returns `false`, and records the line, at a lexical error.
    fn scan_token(&mut self) -> (ok: bool)
        requires
            old(self).wf(),
            old(self).current < old(self).chars@.len(),
            1 <= old(self).line <= old(self).current + 1,
            old(self).error_line.is_none(),
            old(self).error_kind.is_none(),
        ensures
            final(self).wf(),
            final(self).chars == old(self).chars,
            final(self).source == old(self).source,
            match scan_step(old(self).chars@, old(self).current as int, old(self).line as int) {
                Err((l, k)) => !ok && final(self).error_line == Some(l as usize)
                    && final(self).error_kind == Some(k)
                    && l == final(self).line,
                Ok((q, l, toks)) => ok && final(self).current == q && final(self).line == l
                    && tokens_view(final(self).tokens@) == tokens_view(old(self).tokens@) + toks
                    && q > old(self).current && 1 <= l <= q + 1
                    && q <= old(self).chars@.len() + 2
                    && final(self).error_line.is_none() && final(self).error_kind.is_none(),
            },
    {
        let ghost src = self.chars@;
        let p = self.current;
        let line = self.line;
        let c = self.chars[p];
        let n = self.peek_at(p + 1);
        let at_end1 = p + 1 >= self.chars.len();
        let ghost before = tokens_view(self.tokens@);
        if let Some(kind) = single_kind_exec(c) {
            self.push_token(kind, p, p + 1, line);
            assert(src.subrange(p as int, p + 1) =~= seq![c]);
            self.current = p + 1;
        } else if c == '/' {
            if !at_end1 && n == '/' {
                self.current = self.line_comment_end_exec(p + 2);
            } else if !at_end1 && n == '*' {
                let (e, count) = self.block_comment_stop_exec(p + 2);
                self.line = line + count;
                self.current = e + 2;
            } else {
                self.push_token(TokenType::Slash, p, p + 1, line);
                assert(src.subrange(p as int, p + 1) =~= seq!['/']);
                self.current = p + 1;
            }
        } else if let Some(kinds) = pair_kinds_exec(c) {
            if !at_end1 && n == '=' {
                self.push_token(kinds.1, p, p + 2, line);
                assert(src.subrange(p as int, p + 2) =~= seq![c, '=']);
                self.current = p + 2;
            } else {
                self.push_token(kinds.0, p, p + 1, line);
                assert(src.subrange(p as int, p + 1) =~= seq![c]);
                self.current = p + 1;
            }
        } else if c == ' ' || c == '\t' || c == '\r' {
            self.current = p + 1;
        } else if c == '\n' {
            self.line = line + 1;
            self.current = p + 1;
        } else if c == '"' || c == '\'' || c == '`' {
            let (e, count) = self.string_end_exec(p + 1, c);
            let l = line + count;
            self.line = l;
            if e >= self.chars.len() {
                self.error_line = Some(l);
                self.error_kind = Some(LexErrorKind::UnterminatedString);
                return false;
            }
            self.push_token(TokenType::String, p + 1, e, l);
            self.current = e + 1;
        } else if is_digit(c) {
            let a = self.digits_end_exec(p + 1);
            let e = if self.peek_at(a) == '.' && is_digit(self.peek_at(a + 1)) {
                self.digits_end_exec(a + 1)
            } else {
                a
            };
            self.push_token(TokenType::Number, p, e, line);
            self.current = e;
        } else if is_alpha(c) {
            let e = self.word_end_exec(p + 1);
            let kind = self.word_kind(p, e);
            self.push_token(kind, p, e, line);
            self.current = e;
        } else {
            self.error_line = Some(line);
            self.error_kind = Some(LexErrorKind::UnexpectedCharacter);
            return false;
        }
        proof {
            if tokens_view(self.tokens@).len() == before.len() {
                assert(tokens_view(self.tokens@) =~= before + seq![]);
            } else {
                assert(tokens_view(self.tokens@) =~= before + seq![tokens_view(self.tokens@).last()]);
            }
        }
        true
    }

    /// The character at `p`, or `'\0'` past the end.
    fn peek_at(&self, p: usize) -> (c: char)
        ensures
            c == char_at(self.chars@, p as int),
    {
        if p < self.chars.len() { self.chars[p] } else { '\0' }
    }

    /// The text of `chars[lo..hi]`.
    fn lexeme(&self, lo: usize, hi: usize) -> (r: String)
        requires
            self.wf(),
            lo <= hi <= self.chars@.len(),
        ensures
            r@ == self.chars@.subrange(lo as int, hi as int),
    {
        self.source.as_str().substring_char(lo, hi).to_owned()
    }

    fn push_token(&mut self, kind: TokenType, lo: usize, hi: usize, line: usize)
        requires
            old(self).wf(),
            lo <= hi <= old(self).chars@.len(),
        ensures
            final(self).chars == old(self).chars,
            final(self).source == old(self).source,
            final(self).current == old(self).current,
            final(self).line == old(self).line,
            final(self).error_line == old(self).error_line,
            final(self).error_kind == old(self).error_kind,
            tokens_view(final(self).tokens@) == tokens_view(old(self).tokens@).push(
                token_view(kind, old(self).chars@.subrange(lo as int, hi as int), line as int),
            ),
    {
        let text = self.lexeme(lo, hi);
        let ghost before = tokens_view(self.tokens@);
        self.tokens.push(Token::new(kind, text, line));
        assert(tokens_view(self.tokens@) =~= before.push(
            token_view(kind, self.chars@.subrange(lo as int, hi as int), line as int),
        ));
    }

    fn line_comment_end_exec(&self, p: usize) -> (r: usize)
        requires
            self.wf(),
            p <= self.chars@.len(),
        ensures
            r == line_comment_end(self.chars@, p as int),
            p <= r <= self.chars@.len(),
    {
        let mut i = p;
        while i < self.chars.len() && self.chars[i] != '\n'
            invariant
                p <= i <= self.chars@.len(),
                line_comment_end(self.chars@, i as int) == line_comment_end(self.chars@, p as int),
            decreases self.chars@.len() - i,
        {
            i = i + 1;
        }
        i
    }

    /// Where a block comment's body that starts at `p` ends, and the newlines in it.
    fn block_comment_stop_exec(&self, p: usize) -> (r: (usize, usize))
        requires
            self.wf(),
            p <= self.chars@.len(),
        ensures
            r.0 == block_comment_stop(self.chars@, p as int),
            p <= r.0 <= self.chars@.len(),
            r.1 == newlines(self.chars@, p as int, r.0 as int),
            r.1 <= r.0 - p,
    {
        let mut i = p;
        let mut count: usize = 0;
        while i < self.chars.len() && !(self.peek_at(i) == '*' && self.peek_at(i + 1) == '/')
            invariant
                self.wf(),
                p <= i <= self.chars@.len(),
                block_comment_stop(self.chars@, i as int) == block_comment_stop(self.chars@, p as int),
                count == newlines(self.chars@, p as int, i as int),
                count <= i - p,
            decreases self.chars@.len() - i,
        {
            if self.chars[i] == '\n' {
                count = count + 1;
            }
            i = i + 1;
        }
        (i, count)
    }

    fn digits_end_exec(&self, p: usize) -> (r: usize)
        requires
            self.wf(),
            p <= self.chars@.len(),
        ensures
            r == digits_end(self.chars@, p as int),
            p <= r <= self.chars@.len(),
    {
        let mut i = p;
        while i < self.chars.len() && is_digit(self.chars[i])
            invariant
                p <= i <= self.chars@.len(),
                digits_end(self.chars@, i as int) == digits_end(self.chars@, p as int),
            decreases self.chars@.len() - i,
        {
            i = i + 1;
        }
        i
    }

    fn word_end_exec(&self, p: usize) -> (r: usize)
        requires
            self.wf(),
            p <= self.chars@.len(),
        ensures
            r == word_end(self.chars@, p as int),
            p <= r <= self.chars@.len(),
    {
        let mut i = p;
        while i < self.chars.len() && is_alpha_numeric(self.chars[i])
            invariant
                p <= i <= self.chars@.len(),
                word_end(self.chars@, i as int) == word_end(self.chars@, p as int),
            decreases self.chars@.len() - i,
        {
            i = i + 1;
        }
        i
    }

    /// The end of a string body that starts at `p`, and the newlines in it.
    fn string_end_exec(&self, p: usize, q: char) -> (r: (usize, usize))
        requires
            self.wf(),
            p <= self.chars@.len(),
        ensures
            r.0 == string_end(self.chars@, p as int, q),
            p <= r.0 <= self.chars@.len(),
            r.1 == newlines(self.chars@, p as int, r.0 as int),
            r.1 <= r.0 - p,
    {
        let mut i = p;
        let mut count: usize = 0;
        while i < self.chars.len() && self.chars[i] != q
            invariant
                p <= i <= self.chars@.len(),
                string_end(self.chars@, i as int, q) == string_end(self.chars@, p as int, q),
                count == newlines(self.chars@, p as int, i as int),
                count <= i - p,
            decreases self.chars@.len() - i,
        {
            if self.chars[i] == '\n' {
                count = count + 1;
            }
            i = i + 1;
        }
        (i, count)
    }

    fn span_is(&self, lo: usize, w: &str) -> (r: bool)
        requires
            self.wf(),
            lo <= self.chars@.len(),
        ensures
            r == (lo + w@.len() <= self.chars@.len()
                && self.chars@.subrange(lo as int, lo + w@.len()) == w@),
    {
        let n = w.unicode_len();
        if n > self.chars.len() - lo {
            return false;
        }
        let mut i: usize = 0;
        while i < n
            invariant
                n == w@.len(),
                self.wf(),
                lo + n <= self.chars@.len(),
                i <= n,
                forall|k: int| 0 <= k < i ==> self.chars@[lo + k] == w@[k],
            decreases n - i,
        {
            if self.chars[lo + i] != w.get_char(i) {
                assert(self.chars@.subrange(lo as int, lo + n)[i as int] != w@[i as int]);
                return false;
            }
            i = i + 1;
        }
        assert(self.chars@.subrange(lo as int, lo + n) =~= w@);
        true
    }

    /// The kind of the word `chars[lo..hi]`: a reserved word or an identifier.
    fn word_kind(&self, lo: usize, hi: usize) -> (r: TokenType)
        requires
            self.wf(),
            lo <= hi <= self.chars@.len(),
        ensures
            r == keyword_kind(self.chars@.subrange(lo as int, hi as int)),
    {
        proof {
            reveal_strlit("and");
            reveal_strlit("while");
            reveal_strlit("var");
            reveal_strlit("true");
            reveal_strlit("print");
            reveal_strlit("or");
            reveal_strlit("nil");
            reveal_strlit("if");
            reveal_strlit("for");
            reveal_strlit("false");
            reveal_strlit("else");
        }
        let ghost w = self.chars@.subrange(lo as int, hi as int);
        let n = hi - lo;
        assert(seq!['a', 'n', 'd'] == "and"@);
        assert(seq!['w', 'h', 'i', 'l', 'e'] == "while"@);
        assert(seq!['v', 'a', 'r'] == "var"@);
        assert(seq!['t', 'r', 'u', 'e'] == "true"@);
        assert(seq!['p', 'r', 'i', 'n', 't'] == "print"@);
        assert(seq!['o', 'r'] == "or"@);
        assert(seq!['n', 'i', 'l'] == "nil"@);
        assert(seq!['i', 'f'] == "if"@);
        assert(seq!['f', 'o', 'r'] == "for"@);
        assert(seq!['f', 'a', 'l', 's', 'e'] == "false"@);
        assert(seq!['e', 'l', 's', 'e'] == "else"@);
        if n == 3 && self.span_is(lo, "and") {
            TokenType::And
        } else if n == 5 && self.span_is(lo, "while") {
            TokenType::While
        } else if n == 3 && self.span_is(lo, "var") {
            TokenType::Var
        } else if n == 4 && self.span_is(lo, "true") {
            TokenType::True
        } else if n == 5 && self.span_is(lo, "print") {
            TokenType::Print
        } else if n == 2 && self.span_is(lo, "or") {
            TokenType::Or
        } else if n == 3 && self.span_is(lo, "nil") {
            TokenType::Nil
        } else if n == 2 && self.span_is(lo, "if") {
            TokenType::If
        } else if n == 3 && self.span_is(lo, "for") {
            TokenType::For
        } else if n == 5 && self.span_is(lo, "false") {
            TokenType::False
        } else if n == 4 && self.span_is(lo, "else") {
            TokenType::Else
        } else {
            TokenType::Identifier
        }
    }
}

fn single_kind_exec(c: char) -> (r: Option<TokenType>)
    ensures
        r == single_kind(c),
{
    if c == '(' { Some(TokenType::LeftParen) }
    else if c == ')' { Some(TokenType::RightParen) }
    else if c == '{' { Some(TokenType::LeftBrace) }
    else if c == '}' { Some(TokenType::RightBrace) }
    else if c == ',' { Some(TokenType::Comma) }
    else if c == '.' { Some(TokenType::Dot) }
    else if c == '-' { Some(TokenType::Minus) }
    else if c == '+' { Some(TokenType::Plus) }
    else if c == ';' { Some(TokenType::Semicolon) }
    else if c == '*' { Some(TokenType::Star) }
    else if c == '?' { Some(TokenType::Qmark) }
    else if c == ':' { Some(TokenType::Colon) }
    else { None }
}

fn pair_kinds_exec(c: char) -> (r: Option<(TokenType, TokenType)>)
    ensures
        r == pair_kinds(c),
{
    if c == '=' { Some((TokenType::Equal, TokenType::EqualEqual)) }
    else if c == '!' { Some((TokenType::Bang, TokenType::BangEqual)) }
    else if c == '<' { Some((TokenType::Less, TokenType::LessEqual)) }
    else if c == '>' { Some((TokenType::Greater, TokenType::GreaterEqual)) }
    else { None }
}

fn nul_text() -> (r: String)
    ensures
        r@ == seq!['\0'],
{
    proof {
        reveal_strlit("\0");
    }
    let r = String::from_str("\0");
    assert(r@ =~= seq!['\0']);
    r
}

fn is_digit(c: char) -> (r: bool)
    ensures
        r == is_digit_char(c),
{
    '0' <= c && c <= '9'
}

fn is_alpha(c: char) -> (r: bool)
    ensures
        r == is_alpha_char(c),
{
    ('a' <= c && c <= 'z') || ('A' <= c && c <= 'Z')
}

fn is_alpha_numeric(c: char) -> (r: bool)
    ensures
        r == is_word_char(c),
{
    is_digit(c) || is_alpha(c) || c == '_'
}

} // verus!
