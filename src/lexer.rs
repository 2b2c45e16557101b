//! The tokenizer: longest match at the cursor, with whitespace and comments
//! recognised and skipped.
use vstd::prelude::*;
use vstd::string::StrSliceExecFns;
use crate::error::{outcome_is, CompileError, ErrorModel};
use crate::utterances::Kind;

verus! {

/// A class of characters that a run of the same class may continue with.
#[derive(Clone, Copy, Debug, PartialEq, Eq, Structural)]
pub enum Class {
    /// `[ \t\n\f]`
    Blank,
    /// `[a-zA-Z0-9_]`
    AliasTail,
    /// `[0-9]`
    Digit,
    /// Anything but a line feed.
    NotNewline,
    /// Anything but `*`.
    NotStar,
}

pub open spec fn is_blank(c: char) -> bool {
    c == ' ' || c == '\t' || c == '\n' || c == '\x0c'
}

pub open spec fn is_lower(c: char) -> bool {
    'a' <= c && c <= 'z'
}

pub open spec fn is_digit(c: char) -> bool {
    '0' <= c && c <= '9'
}

impl Class {
    pub open spec fn holds(self, c: char) -> bool {
        match self {
            Class::Blank => is_blank(c),
            Class::AliasTail => is_lower(c) || ('A' <= c && c <= 'Z') || is_digit(c) || c == '_',
            Class::Digit => is_digit(c),
            Class::NotNewline => c != '\n',
            Class::NotStar => c != '*',
        }
    }

    pub fn accepts(self, c: char) -> (r: bool)
        ensures
            r == self.holds(c),
    {
        match self {
            Class::Blank => c == ' ' || c == '\t' || c == '\n' || c == '\x0c',
            Class::AliasTail => ('a' <= c && c <= 'z') || ('A' <= c && c <= 'Z') || ('0' <= c
                && c <= '9') || c == '_',
            Class::Digit => '0' <= c && c <= '9',
            Class::NotNewline => c != '\n',
            Class::NotStar => c != '*',
        }
    }
}

/// Length of the longest run of characters of `class` starting at `p`.
pub open spec fn run(s: Seq<char>, p: int, class: Class) -> nat
    decreases s.len() - p,
{
    if 0 <= p < s.len() && class.holds(s[p]) {
        1 + run(s, p + 1, class)
    } else {
        0
    }
}

/// The kind of a word that starts with a lower-case letter.
pub open spec fn word_kind(w: Seq<char>) -> Kind {
    if w == seq!['l', 'e', 't'] {
        Kind::KeywordLet
    } else if w == seq!['s', 'y', 's', 'c', 'a', 'l', 'l'] {
        Kind::SystemCall
    } else {
        Kind::AliasSnakeCase
    }
}

/// The kind of a one-character token.
pub open spec fn symbol_kind(c: char) -> Option<Kind> {
    if c == '(' {
        Some(Kind::ParenthesisOpen)
    } else if c == ')' {
        Some(Kind::ParenthesisClose)
    } else if c == '{' {
        Some(Kind::BracketOpen)
    } else if c == '}' {
        Some(Kind::BracketClose)
    } else if c == '=' {
        Some(Kind::Assign)
    } else if c == '+' {
        Some(Kind::Add)
    } else if c == '-' {
        Some(Kind::Sub)
    } else if c == '*' {
        Some(Kind::Mul)
    } else if c == '/' {
        Some(Kind::Div)
    } else if c == ';' {
        Some(Kind::SemiColon)
    } else {
        None
    }
}

/// A block comment `/* ... */` (with no `*` inside) starts at `p`.
pub open spec fn block_comment_at(s: Seq<char>, p: int) -> bool {
    let q = p + 2 + run(s, p + 2, Class::NotStar);
    &&& p + 1 < s.len()
    &&& s[p] == '/'
    &&& s[p + 1] == '*'
    &&& q + 1 < s.len()
    &&& s[q + 1] == '/'
}

/// What the longest match at a position is.
pub enum Lexeme {
    /// Whitespace of the given length.
    Blank(nat),
    /// A token of the given kind and length.
    Token(Kind, nat),
    /// No rule matches.
    Invalid,
}

/// Comments are tokens that are never handed to the parser.
pub open spec fn is_trivia(k: Kind) -> bool {
    k == Kind::CommentLine || k == Kind::CommentBlock
}

/// The longest match at `p`, ties going to keywords.
pub open spec fn lexeme_at(s: Seq<char>, p: int) -> Lexeme
    recommends
        0 <= p < s.len(),
{
    let c = s[p];
    if is_blank(c) {
        Lexeme::Blank(1 + run(s, p + 1, Class::Blank))
    } else if c == '/' && p + 1 < s.len() && s[p + 1] == '/' {
        Lexeme::Token(Kind::CommentLine, 2 + run(s, p + 2, Class::NotNewline))
    } else if block_comment_at(s, p) {
        Lexeme::Token(Kind::CommentBlock, 4 + run(s, p + 2, Class::NotStar))
    } else if is_lower(c) {
        let n = 1 + run(s, p + 1, Class::AliasTail);
        Lexeme::Token(word_kind(s.subrange(p, p + n)), n)
    } else if is_digit(c) {
        Lexeme::Token(Kind::Number, 1 + run(s, p + 1, Class::Digit))
    } else {
        match symbol_kind(c) {
            Some(k) => Lexeme::Token(k, 1),
            None => Lexeme::Invalid,
        }
    }
}

/// How many characters of whitespace and comments start at `p`.
pub open spec fn skip_len(s: Seq<char>, p: int) -> nat
    decreases (if p < s.len() { s.len() - p } else { 0 }),
{
    if 0 <= p < s.len() {
        match lexeme_at(s, p) {
            Lexeme::Blank(n) => n + skip_len(s, p + n),
            Lexeme::Token(k, n) => if is_trivia(k) {
                n + skip_len(s, p + n)
            } else {
                0
            },
            Lexeme::Invalid => 0,
        }
    } else {
        0
    }
}

/// The next token from `p` on, after whitespace and comments.
pub enum Step {
    End,
    Token(Kind, int, int),
    Fault(int),
}

pub open spec fn next_token(s: Seq<char>, p: int) -> Step {
    let q = p + skip_len(s, p);
    if q >= s.len() {
        Step::End
    } else {
        match lexeme_at(s, q) {
            Lexeme::Token(k, n) => Step::Token(k, q, q + n),
            _ => Step::Fault(q),
        }
    }
}

/// A token handed to the parser: its kind and the characters `start..end`.
#[derive(Clone, Copy, Debug, PartialEq, Eq, Structural)]
pub struct Token {
    pub kind: Kind,
    pub start: usize,
    pub end: usize,
}

/// What scanning from `p` gives: `None` at the end of the source.
pub open spec fn scanned(s: Seq<char>, p: int) -> Result<Option<Token>, ErrorModel> {
    match next_token(s, p) {
        Step::End => Ok(None),
        Step::Token(k, a, b) => Ok(Some(Token { kind: k, start: a as usize, end: b as usize })),
        Step::Fault(q) => Err(ErrorModel::Lexical { position: q as usize }),
    }
}

impl View for Token {
    type V = Token;

    open spec fn view(&self) -> Token {
        *self
    }
}

/// The longest match at a position, as the scanner computes it.
pub enum Piece {
    Blank(usize),
    Token(Kind, usize),
    Invalid,
}

impl View for Piece {
    type V = Lexeme;

    open spec fn view(&self) -> Lexeme {
        match self {
            Piece::Blank(n) => Lexeme::Blank(*n as nat),
            Piece::Token(k, n) => Lexeme::Token(*k, *n as nat),
            Piece::Invalid => Lexeme::Invalid,
        }
    }
}

/// A cursor over the characters of a source text.
pub struct Lexer {
    source: String,
    chars: Vec<char>,
    start: usize,
    end: usize,
}

impl Lexer {
    /// The characters of the source.
    pub closed spec fn text(&self) -> Seq<char> {
        self.chars@
    }

    /// Where scanning goes on: the end of the last token handed out.
    pub closed spec fn cursor(&self) -> int {
        self.end as int
    }

    /// Where the last token handed out starts.
    pub closed spec fn token_start(&self) -> int {
        self.start as int
    }

    pub closed spec fn wf(&self) -> bool {
        &&& self.chars@ == self.source@
        &&& self.start <= self.end <= self.chars.len()
    }

    /// The cursor and the last token lie within the source.
    pub proof fn lemma_bounds(&self)
        requires
            self.wf(),
        ensures
            0 <= self.token_start() <= self.cursor() <= self.text().len() <= usize::MAX,
    {
    }

    /// A lexer at the start of `source`.
    pub fn new(source: &str) -> (r: Lexer)
        ensures
            r.wf(),
            r.text() == source@,
            r.cursor() == 0,
            r.token_start() == 0,
    {
        broadcast use vstd::string::group_string_axioms;

        let mut chars: Vec<char> = Vec::new();
        for c in it: source.chars()
            invariant
                chars@ == it.seq().take(it.index() as int),
        {
            chars.push(c);
        }
        assert(chars@ == source@);
        Lexer { source: source.to_owned(), chars, start: 0, end: 0 }
    }

    /// Number of characters of the source.
    pub fn len(&self) -> (r: usize)
        requires
            self.wf(),
        ensures
            r == self.text().len(),
    {
        self.chars.len()
    }

    /// The end of the run of `class` that starts at `p`.
    fn run_end(&self, p: usize, class: Class) -> (q: usize)
        requires
            self.wf(),
            p <= self.text().len(),
        ensures
            q == p + run(self.text(), p as int, class),
            q <= self.text().len(),
    {
        let ghost s = self.text();
        let mut q = p;
        while q < self.chars.len() && class.accepts(self.chars[q])
            invariant
                self.wf(),
                s == self.text(),
                p <= q <= s.len(),
                run(s, p as int, class) == (q - p) + run(s, q as int, class),
            decreases s.len() - q,
        {
            q = q + 1;
        }
        q
    }

    /// Hands out the next token, `None` at the end of the source. On a
    /// lexical error the cursor stays where it was.
    pub fn next(&mut self) -> (r: Option<Result<Kind, CompileError>>)
        requires
            old(self).wf(),
        ensures
            final(self).wf(),
            final(self).text() == old(self).text(),
            match scanned(old(self).text(), old(self).cursor()) {
                Ok(None) => r is None && final(self).cursor() == old(self).cursor()
                    && final(self).token_start() == old(self).token_start(),
                Ok(Some(t)) => r == Some(Ok::<Kind, CompileError>(t.kind))
                    && final(self).token_start() == t.start && final(self).cursor() == t.end,
                Err(e) => r matches Some(Err(x)) && x@ == e && final(self).cursor()
                    == old(self).cursor() && final(self).token_start()
                    == old(self).token_start(),
            },
    {
        match self.scan(self.end) {
            Ok(Some(t)) => {
                proof {
                    lemma_token_bounds(self.text(), self.end as int);
                }
                self.start = t.start;
                self.end = t.end;
                Some(Ok(t.kind))
            },
            Ok(None) => None,
            Err(e) => Some(Err(e)),
        }
    }

    /// What [`Lexer::next`] would hand out, without moving the cursor.
    pub fn peek(&self) -> (r: Option<Result<Kind, CompileError>>)
        requires
            self.wf(),
        ensures
            match scanned(self.text(), self.cursor()) {
                Ok(None) => r is None,
                Ok(Some(t)) => r == Some(Ok::<Kind, CompileError>(t.kind)),
                Err(e) => r matches Some(Err(x)) && x@ == e,
            },
    {
        match self.scan(self.end) {
            Ok(Some(t)) => Some(Ok(t.kind)),
            Ok(None) => None,
            Err(e) => Some(Err(e)),
        }
    }

    /// The text of the last token handed out.
    pub fn slice(&self) -> (r: String)
        requires
            self.wf(),
        ensures
            r@ == self.text().subrange(self.token_start(), self.cursor()),
    {
        self.source.as_str().substring_char(self.start, self.end).to_owned()
    }

    /// Where the last token handed out starts and ends.
    pub fn span(&self) -> (r: (usize, usize))
        requires
            self.wf(),
        ensures
            r.0 == self.token_start(),
            r.1 == self.cursor(),
    {
        (self.start, self.end)
    }

    /// Moves the cursor to `p`, as if a token ending there had been handed out.
    pub fn seek(&mut self, p: usize)
        requires
            old(self).wf(),
            p <= old(self).text().len(),
        ensures
            final(self).wf(),
            final(self).text() == old(self).text(),
            final(self).cursor() == p,
            final(self).token_start() == p,
    {
        self.start = p;
        self.end = p;
    }

    /// The character at `i`.
    pub fn char_at(&self, i: usize) -> (c: char)
        requires
            self.wf(),
            i < self.text().len(),
        ensures
            c == self.text()[i as int],
    {
        self.chars[i]
    }

    /// The text of the characters `a..b`.
    pub fn text_of(&self, a: usize, b: usize) -> (r: String)
        requires
            self.wf(),
            a <= b <= self.text().len(),
        ensures
            r@ == self.text().subrange(a as int, b as int),
    {
        self.source.as_str().substring_char(a, b).to_owned()
    }

    /// The longest match at `p`.
    pub fn piece(&self, p: usize) -> (r: Piece)
        requires
            self.wf(),
            p < self.text().len(),
        ensures
            r@ == lexeme_at(self.text(), p as int),
            match r {
                Piece::Blank(n) => 0 < n && p + n <= self.text().len(),
                Piece::Token(_, n) => 0 < n && p + n <= self.text().len(),
                Piece::Invalid => true,
            },
    {
        let ghost s = self.text();
        let len = self.chars.len();
        let c = self.chars[p];
        if Class::Blank.accepts(c) {
            let e = self.run_end(p + 1, Class::Blank);
            return Piece::Blank(e - p);
        }
        if c == '/' && p + 1 < len && self.chars[p + 1] == '/' {
            let e = self.run_end(p + 2, Class::NotNewline);
            return Piece::Token(Kind::CommentLine, e - p);
        }
        if c == '/' && p + 1 < len && self.chars[p + 1] == '*' {
            let e = self.run_end(p + 2, Class::NotStar);
            if len - e > 1 && self.chars[e + 1] == '/' {
                return Piece::Token(Kind::CommentBlock, e + 2 - p);
            }
        }
        if 'a' <= c && c <= 'z' {
            let e = self.run_end(p + 1, Class::AliasTail);
            let kind = self.word_kind(p, e);
            return Piece::Token(kind, e - p);
        }
        if '0' <= c && c <= '9' {
            let e = self.run_end(p + 1, Class::Digit);
            return Piece::Token(Kind::Number, e - p);
        }
        match symbol(c) {
            Some(k) => Piece::Token(k, 1),
            None => Piece::Invalid,
        }
    }

    /// The kind of the word `a..b`.
    fn word_kind(&self, a: usize, b: usize) -> (k: Kind)
        requires
            self.wf(),
            a <= b <= self.text().len(),
        ensures
            k == word_kind(self.text().subrange(a as int, b as int)),
    {
        let ghost w = self.text().subrange(a as int, b as int);
        if b - a == 3 && self.chars[a] == 'l' && self.chars[a + 1] == 'e' && self.chars[a + 2]
            == 't' {
            assert(w =~= seq!['l', 'e', 't']);
            Kind::KeywordLet
        } else if b - a == 7 && self.chars[a] == 's' && self.chars[a + 1] == 'y' && self.chars[a
            + 2] == 's' && self.chars[a + 3] == 'c' && self.chars[a + 4] == 'a' && self.chars[a
            + 5] == 'l' && self.chars[a + 6] == 'l' {
            assert(w =~= seq!['s', 'y', 's', 'c', 'a', 'l', 'l']);
            Kind::SystemCall
        } else {
            proof {
                let kw = seq!['l', 'e', 't'];
                let sc = seq!['s', 'y', 's', 'c', 'a', 'l', 'l'];
                assert(kw.len() == 3 && kw[0] == 'l' && kw[1] == 'e' && kw[2] == 't');
                assert(sc.len() == 7 && sc[0] == 's' && sc[1] == 'y' && sc[2] == 's' && sc[3]
                    == 'c' && sc[4] == 'a' && sc[5] == 'l' && sc[6] == 'l');
                if w == kw {
                    assert(w[0] == self.text()[a as int]);
                    assert(w[1] == self.text()[a + 1]);
                    assert(w[2] == self.text()[a + 2]);
                }
                if w == sc {
                    assert(w[0] == self.text()[a as int]);
                    assert(w[1] == self.text()[a + 1]);
                    assert(w[2] == self.text()[a + 2]);
                    assert(w[3] == self.text()[a + 3]);
                    assert(w[4] == self.text()[a + 4]);
                    assert(w[5] == self.text()[a + 5]);
                    assert(w[6] == self.text()[a + 6]);
                }
            }
            Kind::AliasSnakeCase
        }
    }

    /// The value of the digits `a..b`, or `None` where it does not fit in 32 bits.
    pub fn number_at(&self, a: usize, b: usize) -> (r: Option<u32>)
        requires
            self.wf(),
            a <= b <= self.text().len(),
            forall|j: int| a <= j < b ==> #[trigger] is_digit(self.text()[j]),
        ensures
            match r {
                Some(v) => v == digits_value(self.text().subrange(a as int, b as int)),
                None => digits_value(self.text().subrange(a as int, b as int)) > u32::MAX,
            },
    {
        let ghost w = self.text().subrange(a as int, b as int);
        let mut v: u64 = 0;
        let mut i = a;
        while i < b
            invariant
                self.wf(),
                w == self.text().subrange(a as int, b as int),
                a <= i <= b <= self.text().len(),
                forall|j: int| a <= j < b ==> #[trigger] is_digit(self.text()[j]),
                v <= u32::MAX,
                v == digits_value(w.take(i - a)),
            decreases b - i,
        {
            let c = self.chars[i];
            assert(is_digit(c));
            let d = c as u32 - '0' as u32;
            assert(w.take(i + 1 - a).drop_last() =~= w.take(i - a));
            v = v * 10 + d as u64;
            i = i + 1;
            if v > u32::MAX as u64 {
                proof {
                    lemma_digits_value_grows(w, i - a);
                }
                return None;
            }
        }
        assert(w.take(b - a) =~= w);
        Some(v as u32)
    }

    /// The next token from `p` on: `None` at the end of the source.
    pub fn scan(&self, p: usize) -> (r: Result<Option<Token>, CompileError>)
        requires
            self.wf(),
            p <= self.text().len(),
        ensures
            outcome_is(r, scanned(self.text(), p as int)),
    {
        let ghost s = self.text();
        let mut q = p;
        loop
            invariant
                self.wf(),
                s == self.text(),
                p <= q <= s.len(),
                q + skip_len(s, q as int) == p + skip_len(s, p as int),
            decreases s.len() - q,
        {
            if q >= self.chars.len() {
                return Ok(None);
            }
            match self.piece(q) {
                Piece::Blank(n) => {
                    q = q + n;
                },
                Piece::Token(k, n) => {
                    if k == Kind::CommentLine || k == Kind::CommentBlock {
                        q = q + n;
                    } else {
                        return Ok(Some(Token { kind: k, start: q, end: q + n }));
                    }
                },
                Piece::Invalid => {
                    return Err(CompileError::Lexical { position: q });
                },
            }
        }
    }
}

/// A token found from `p` on lies within the source, after `p`.
pub proof fn lemma_token_bounds(s: Seq<char>, p: int)
    requires
        0 <= p <= s.len(),
    ensures
        match next_token(s, p) {
            Step::Token(k, a, b) => p <= a < b <= s.len() && !is_trivia(k),
            Step::Fault(q) => p <= q < s.len(),
            Step::End => true,
        },
{
    lemma_skip_bounds(s, p);
    let q = p + skip_len(s, p);
    if q < s.len() {
        lemma_lexeme_bounds(s, q);
    }
}

/// Every match lies within the source and is not empty.
pub proof fn lemma_lexeme_bounds(s: Seq<char>, p: int)
    requires
        0 <= p < s.len(),
    ensures
        match lexeme_at(s, p) {
            Lexeme::Blank(n) => 0 < n && p + n <= s.len(),
            Lexeme::Token(_, n) => 0 < n && p + n <= s.len(),
            Lexeme::Invalid => true,
        },
{
    lemma_run_bound(s, p + 1, Class::Blank);
    if p + 2 <= s.len() {
        lemma_run_bound(s, p + 2, Class::NotNewline);
        lemma_run_bound(s, p + 2, Class::NotStar);
    }
    lemma_run_bound(s, p + 1, Class::AliasTail);
    lemma_run_bound(s, p + 1, Class::Digit);
}

/// A run ends within the source.
pub proof fn lemma_run_bound(s: Seq<char>, p: int, class: Class)
    requires
        0 <= p <= s.len(),
    ensures
        p + run(s, p, class) <= s.len(),
    decreases s.len() - p,
{
    if p < s.len() {
        lemma_run_bound(s, p + 1, class);
    }
}

/// Skipping ends within the source, where no whitespace or comment starts.
pub proof fn lemma_skip_bounds(s: Seq<char>, p: int)
    requires
        0 <= p <= s.len(),
    ensures
        p + skip_len(s, p) <= s.len(),
        p + skip_len(s, p) < s.len() ==> match lexeme_at(s, p + skip_len(s, p)) {
            Lexeme::Blank(_) => false,
            Lexeme::Token(k, _) => !is_trivia(k),
            Lexeme::Invalid => true,
        },
    decreases s.len() - p,
{
    if p < s.len() {
        lemma_lexeme_bounds(s, p);
        match lexeme_at(s, p) {
            Lexeme::Blank(n) => lemma_skip_bounds(s, p + n),
            Lexeme::Token(k, n) => if is_trivia(k) {
                lemma_skip_bounds(s, p + n);
            },
            Lexeme::Invalid => {},
        }
    }
}

/// The value of a string of decimal digits.
pub open spec fn digits_value(w: Seq<char>) -> nat
    decreases w.len(),
{
    if w.len() == 0 {
        0
    } else {
        digits_value(w.drop_last()) * 10 + ((w.last() as u32 - '0' as u32) as nat)
    }
}

/// Every character of a run belongs to its class.
pub proof fn lemma_run_holds(s: Seq<char>, p: int, class: Class)
    requires
        0 <= p <= s.len(),
    ensures
        forall|j: int| p <= j < p + run(s, p, class) ==> class.holds(#[trigger] s[j]),
    decreases s.len() - p,
{
    if p < s.len() {
        lemma_run_holds(s, p + 1, class);
    }
}

/// A number token is made of digits.
pub proof fn lemma_number_digits(s: Seq<char>, p: int)
    requires
        0 <= p <= s.len(),
        next_token(s, p) matches Step::Token(k, _, _) && k == Kind::Number,
    ensures
        next_token(s, p) matches Step::Token(_, a, b) && forall|j: int|
            a <= j < b ==> is_digit(#[trigger] s[j]),
{
    lemma_token_bounds(s, p);
    let q = p + skip_len(s, p);
    lemma_run_holds(s, q + 1, Class::Digit);
    if is_lower(s[q]) {
        let n = 1 + run(s, q + 1, Class::AliasTail);
        assert(word_kind(s.subrange(q, q + n)) != Kind::Number);
    }
}

/// A prefix of a digit string never has a larger value than the whole.
pub proof fn lemma_digits_value_grows(w: Seq<char>, i: int)
    requires
        0 <= i <= w.len(),
        forall|j: int| 0 <= j < w.len() ==> #[trigger] is_digit(w[j]),
    ensures
        digits_value(w.take(i)) <= digits_value(w),
    decreases w.len() - i,
{
    if i < w.len() {
        lemma_digits_value_grows(w, i + 1);
        assert(w.take(i + 1).drop_last() =~= w.take(i));
    } else {
        assert(w.take(i) =~= w);
    }
}

/// The kind of a one-character token.
fn symbol(c: char) -> (r: Option<Kind>)
    ensures
        r == symbol_kind(c),
{
    if c == '(' {
        Some(Kind::ParenthesisOpen)
    } else if c == ')' {
        Some(Kind::ParenthesisClose)
    } else if c == '{' {
        Some(Kind::BracketOpen)
    } else if c == '}' {
        Some(Kind::BracketClose)
    } else if c == '=' {
        Some(Kind::Assign)
    } else if c == '+' {
        Some(Kind::Add)
    } else if c == '-' {
        Some(Kind::Sub)
    } else if c == '*' {
        Some(Kind::Mul)
    } else if c == '/' {
        Some(Kind::Div)
    } else if c == ';' {
        Some(Kind::SemiColon)
    } else {
        None
    }
}

} // verus!
