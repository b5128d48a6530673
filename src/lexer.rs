use vstd::prelude::*;

verus! {

/// A token of an expression.
#[derive(Debug, PartialEq, Clone)]
pub enum Token {
    Number(i64),
    Ident(String),
    Plus,
    Minus,
    Colon,
    Slash,
    Eof,
    Illegal,
}

/// What a token means, over mathematical values.
pub enum Lexeme {
    Number(int),
    Word(Seq<char>),
    Plus,
    Minus,
    Colon,
    Slash,
    Eof,
    Illegal,
}

impl Token {
    pub open spec fn model(self) -> Lexeme {
        match self {
            Token::Number(n) => Lexeme::Number(n as int),
            Token::Ident(s) => Lexeme::Word(s@),
            Token::Plus => Lexeme::Plus,
            Token::Minus => Lexeme::Minus,
            Token::Colon => Lexeme::Colon,
            Token::Slash => Lexeme::Slash,
            Token::Eof => Lexeme::Eof,
            Token::Illegal => Lexeme::Illegal,
        }
    }
}

pub open spec fn is_digit(c: char) -> bool {
    '0' <= c && c <= '9'
}

pub open spec fn is_alpha(c: char) -> bool {
    ('a' <= c && c <= 'z') || ('A' <= c && c <= 'Z')
}

pub open spec fn digit_value(c: char) -> int {
    (c as u32) as int - 48
}

/// The first index at or after `p` that does not hold a digit.
pub open spec fn digit_run_end(s: Seq<char>, p: int) -> int
    decreases s.len() - p,
{
    if 0 <= p < s.len() && is_digit(s[p]) {
        digit_run_end(s, p + 1)
    } else {
        p
    }
}

/// The first index at or after `p` that does not hold an ASCII letter.
pub open spec fn alpha_run_end(s: Seq<char>, p: int) -> int
    decreases s.len() - p,
{
    if 0 <= p < s.len() && is_alpha(s[p]) {
        alpha_run_end(s, p + 1)
    } else {
        p
    }
}

/// The integer that a run of decimal digits denotes.
pub open spec fn digits_value(s: Seq<char>) -> int
    decreases s.len(),
{
    if s.len() == 0 {
        0
    } else {
        digits_value(s.drop_last()) * 10 + digit_value(s.last())
    }
}

/// The token that starts at index `p` of `s`, and the index after it.
/// Spaces are skipped; at the end of the text the token is `Eof` and the index stays.
pub open spec fn lex(s: Seq<char>, p: int) -> (Lexeme, int)
    decreases s.len() - p,
{
    if p < 0 || p >= s.len() {
        (Lexeme::Eof, p)
    } else {
        let c = s[p];
        if c == '+' {
            (Lexeme::Plus, p + 1)
        } else if c == '-' {
            (Lexeme::Minus, p + 1)
        } else if c == ':' {
            (Lexeme::Colon, p + 1)
        } else if c == '/' {
            (Lexeme::Slash, p + 1)
        } else if c == ' ' {
            lex(s, p + 1)
        } else if is_digit(c) {
            let q = digit_run_end(s, p);
            let v = digits_value(s.subrange(p, q));
            if v <= i64::MAX as int {
                (Lexeme::Number(v), q)
            } else {
                (Lexeme::Illegal, q)
            }
        } else if is_alpha(c) {
            let q = alpha_run_end(s, p);
            (Lexeme::Word(s.subrange(p, q)), q)
        } else {
            (Lexeme::Illegal, p + 1)
        }
    }
}

/// All tokens from index `p` on, up to and including the first `Eof`.
pub open spec fn lex_all(s: Seq<char>, p: int) -> Seq<Lexeme>
    decreases s.len() - p,
{
    let (t, q) = lex(s, p);
    if t is Eof || q <= p || q > s.len() {
        seq![t]
    } else {
        seq![t] + lex_all(s, q)
    }
}

proof fn lemma_run_ends(s: Seq<char>, p: int)
    requires
        0 <= p <= s.len(),
    ensures
        p <= digit_run_end(s, p) <= s.len(),
        p <= alpha_run_end(s, p) <= s.len(),
        forall|i: int| p <= i < digit_run_end(s, p) ==> is_digit(s[i]),
        forall|i: int| p <= i < alpha_run_end(s, p) ==> is_alpha(s[i]),
    decreases s.len() - p,
{
    if p < s.len() {
        lemma_run_ends(s, p + 1);
    }
}

/// Every token but `Eof` moves forward; none moves past the end.
pub proof fn lemma_lex_advances(s: Seq<char>, p: int)
    requires
        0 <= p <= s.len(),
    ensures
        p <= lex(s, p).1 <= s.len(),
        !(lex(s, p).0 is Eof) ==> p < lex(s, p).1,
    decreases s.len() - p,
{
    lemma_run_ends(s, p);
    if p < s.len() {
        lemma_run_ends(s, p + 1);
        if s[p] == ' ' {
            lemma_lex_advances(s, p + 1);
        }
    }
}

/// Once the end is reached, the tokenizer yields `Eof` again and again.
pub proof fn lemma_lex_end_repeats(s: Seq<char>, p: int)
    requires
        0 <= p <= s.len(),
        lex(s, p).0 is Eof,
    ensures
        lex(s, lex(s, p).1) == lex(s, p),
    decreases s.len() - p,
{
    if p < s.len() {
        if s[p] == ' ' {
            lemma_lex_end_repeats(s, p + 1);
        }
    }
}

pub(crate) proof fn lemma_digits_value_natural(s: Seq<char>)
    requires
        forall|i: int| 0 <= i < s.len() ==> is_digit(s[i]),
    ensures
        digits_value(s) >= 0,
    decreases s.len(),
{
    if s.len() > 0 {
        lemma_digits_value_natural(s.drop_last());
    }
}

proof fn lemma_lex_natural(s: Seq<char>, p: int)
    requires
        0 <= p <= s.len(),
    ensures
        lex(s, p).0 is Number ==> lex(s, p).0->Number_0 >= 0,
    decreases s.len() - p,
{
    if p < s.len() {
        lemma_run_ends(s, p);
        if s[p] == ' ' {
            lemma_lex_natural(s, p + 1);
        } else if is_digit(s[p]) {
            let q = digit_run_end(s, p);
            lemma_digits_value_natural(s.subrange(p, q));
        }
    }
}

/// The tokenizer yields no negative number.
pub proof fn lemma_lex_all_natural(s: Seq<char>, p: int)
    requires
        0 <= p <= s.len(),
    ensures
        forall|i: int| 0 <= i < lex_all(s, p).len() ==>
            (#[trigger] lex_all(s, p)[i] is Number ==> lex_all(s, p)[i]->Number_0 >= 0),
    decreases s.len() - p,
{
    lemma_lex_natural(s, p);
    lemma_lex_advances(s, p);
    let (t, q) = lex(s, p);
    if !(t is Eof || q <= p || q > s.len()) {
        lemma_lex_all_natural(s, q);
        assert forall|i: int| 0 <= i < lex_all(s, p).len() implies
            (#[trigger] lex_all(s, p)[i] is Number ==> lex_all(s, p)[i]->Number_0 >= 0) by {
            if i > 0 {
                assert(lex_all(s, p)[i] == lex_all(s, q)[i - 1]);
            }
        }
    }
}

proof fn lemma_all_digits_run(s: Seq<char>, p: int)
    requires
        0 <= p <= s.len(),
        forall|i: int| p <= i < s.len() ==> is_digit(s[i]),
    ensures
        digit_run_end(s, p) == s.len(),
    decreases s.len() - p,
{
    if p < s.len() {
        lemma_all_digits_run(s, p + 1);
    }
}

/// A run of digits whose value exceeds the largest 64-bit signed integer is one
/// `Illegal` token, followed by the end of input.
pub proof fn lemma_number_overflow_illegal(s: Seq<char>)
    requires
        s.len() > 0,
        forall|i: int| 0 <= i < s.len() ==> is_digit(s[i]),
        digits_value(s) > i64::MAX,
    ensures
        lex_all(s, 0) == seq![Lexeme::Illegal, Lexeme::Eof],
{
    lemma_all_digits_run(s, 0);
    assert(s.subrange(0, s.len() as int) =~= s);
    assert(lex(s, s.len() as int) == (Lexeme::Eof, s.len() as int));
    assert(lex_all(s, s.len() as int) == seq![Lexeme::Eof]);
    assert(lex_all(s, 0) =~= seq![Lexeme::Illegal] + seq![Lexeme::Eof]);
}

/// A tokenizer over a string, one token at a time.
pub struct Lexer<'a> {
    input: &'a str,
    pos: usize,
}

impl<'a> Lexer<'a> {
    pub closed spec fn text(self) -> Seq<char> {
        self.input@
    }

    pub closed spec fn cursor(self) -> int {
        self.pos as int
    }

    pub open spec fn wf(self) -> bool {
        0 <= self.cursor() <= self.text().len()
    }

    pub fn new(string: &'a str) -> (r: Self)
        ensures
            r.text() == string@,
            r.cursor() == 0,
            r.wf(),
    {
        Lexer { input: string, pos: 0 }
    }

    /// Reads the token at the cursor and moves past it.
    pub fn next_token(&mut self) -> (r: Token)
        requires
            old(self).wf(),
        ensures
            final(self).wf(),
            final(self).text() == old(self).text(),
            (r.model(), final(self).cursor()) == lex(old(self).text(), old(self).cursor()),
    {
        let len = self.input.unicode_len();
        let ghost s = self.input@;
        let ghost first = self.pos as int;
        while self.pos < len && self.input.get_char(self.pos) == ' '
            invariant
                len == s.len(),
                s == self.input@,
                first <= self.pos <= len,
                lex(s, first) == lex(s, self.pos as int),
            decreases len - self.pos,
        {
            self.pos = self.pos + 1;
        }
        proof {
            lemma_run_ends(s, self.pos as int);
        }
        if self.pos >= len {
            return Token::Eof;
        }
        let start = self.pos;
        let c = self.input.get_char(start);
        if c == '+' {
            self.pos = start + 1;
            Token::Plus
        } else if c == '-' {
            self.pos = start + 1;
            Token::Minus
        } else if c == ':' {
            self.pos = start + 1;
            Token::Colon
        } else if c == '/' {
            self.pos = start + 1;
            Token::Slash
        } else if '0' <= c && c <= '9' {
            self.number()
        } else if ('a' <= c && c <= 'z') || ('A' <= c && c <= 'Z') {
            self.ident()
        } else {
            self.pos = start + 1;
            Token::Illegal
        }
    }

    fn digit_at(&self, i: usize) -> (r: bool)
        requires
            i < self.text().len(),
        ensures
            r == is_digit(self.text()[i as int]),
    {
        let c = self.input.get_char(i);
        '0' <= c && c <= '9'
    }

    fn alpha_at(&self, i: usize) -> (r: bool)
        requires
            i < self.text().len(),
        ensures
            r == is_alpha(self.text()[i as int]),
    {
        let c = self.input.get_char(i);
        ('a' <= c && c <= 'z') || ('A' <= c && c <= 'Z')
    }

    fn number(&mut self) -> (r: Token)
        requires
            old(self).wf(),
            old(self).cursor() < old(self).text().len(),
            is_digit(old(self).text()[old(self).cursor()]),
        ensures
            final(self).wf(),
            final(self).text() == old(self).text(),
            (r.model(), final(self).cursor()) == lex(old(self).text(), old(self).cursor()),
    {
        let len = self.input.unicode_len();
        let ghost s = self.input@;
        let start = self.pos;
        let mut value: i64 = 0;
        let mut too_large = false;
        proof {
            lemma_run_ends(s, start as int);
            assert(s.subrange(start as int, start as int) =~= Seq::<char>::empty());
        }
        while self.pos < len && self.digit_at(self.pos)
            invariant
                len == s.len(),
                s == self.input@,
                start <= self.pos <= len,
                digit_run_end(s, start as int) == digit_run_end(s, self.pos as int),
                !too_large ==> value as int == digits_value(s.subrange(start as int, self.pos as int)),
                too_large ==> digits_value(s.subrange(start as int, self.pos as int)) > i64::MAX,
                digits_value(s.subrange(start as int, self.pos as int)) >= 0,
            decreases len - self.pos,
        {
            let c = self.input.get_char(self.pos);
            let d = (c as u32 - 48) as i64;
            let ghost before = s.subrange(start as int, self.pos as int);
            let ghost after = s.subrange(start as int, self.pos + 1);
            proof {
                assert(after.drop_last() =~= before);
                assert(after.last() == c);
            }
            if !too_large {
                if value > (i64::MAX - d) / 10 {
                    too_large = true;
                } else {
                    value = value * 10 + d;
                }
            }
            self.pos = self.pos + 1;
        }
        if too_large {
            Token::Illegal
        } else {
            Token::Number(value)
        }
    }

    fn ident(&mut self) -> (r: Token)
        requires
            old(self).wf(),
            old(self).cursor() < old(self).text().len(),
            is_alpha(old(self).text()[old(self).cursor()]),
        ensures
            final(self).wf(),
            final(self).text() == old(self).text(),
            (r.model(), final(self).cursor()) == lex(old(self).text(), old(self).cursor()),
    {
        let len = self.input.unicode_len();
        let ghost s = self.input@;
        let start = self.pos;
        proof {
            lemma_run_ends(s, start as int);
        }
        while self.pos < len && self.alpha_at(self.pos)
            invariant
                len == s.len(),
                s == self.input@,
                start <= self.pos <= len,
                alpha_run_end(s, start as int) == alpha_run_end(s, self.pos as int),
            decreases len - self.pos,
        {
            self.pos = self.pos + 1;
        }
        let word = self.input.substring_char(start, self.pos);
        Token::Ident(String::from_str(word))
    }

    /// Reads every remaining token, up to and including the first `Eof`.
    pub fn tokens(&mut self) -> (r: Vec<Token>)
        requires
            old(self).wf(),
        ensures
            final(self).wf(),
            final(self).text() == old(self).text(),
            r@.map_values(|t: Token| t.model()) == lex_all(old(self).text(), old(self).cursor()),
    {
        let mut out: Vec<Token> = Vec::new();
        let ghost s = self.text();
        let ghost first = self.cursor();
        loop
            invariant
                self.wf(),
                self.text() == s,
                s == old(self).text(),
                first == old(self).cursor(),
                out@.map_values(|t: Token| t.model()) + lex_all(s, self.cursor()) == lex_all(s, first),
            decreases s.len() - self.cursor(),
        {
            let ghost p = self.cursor();
            proof {
                lemma_lex_advances(s, p);
            }
            let t = self.next_token();
            let is_end = match t {
                Token::Eof => true,
                _ => false,
            };
            let ghost before = out@;
            out.push(t);
            proof {
                assert(out@.map_values(|t: Token| t.model()) =~= before.map_values(|t: Token| t.model()).push(t.model()));
            }
            if is_end {
                assert(lex_all(s, p) == seq![t.model()]);
                assert(out@.map_values(|t: Token| t.model()) =~= lex_all(s, first));
                return out;
            }
            assert(lex_all(s, p) =~= seq![t.model()] + lex_all(s, self.cursor()));
        }
    }
}

} // verus!
