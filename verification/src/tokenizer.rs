//! Splits an address into separators and runs of text.
//!
//! Two characters cut the input: the SRS separator and the separator between
//! local part and domain. Each of them is a token of its own. What lies
//! between two cuts is one token of text, unless it reads exactly `SRS0` or
//! `SRS1`, which are tokens of their own kind.

use vstd::prelude::*;
use vstd::string::*;
use crate::text::{chars_of, single_char, split_chars};

verus! {

/// One token of an address. A run of text borrows from the input.
#[derive(Debug, PartialEq)]
pub enum Token<'a> {
    SRSSeparator,
    LocalDomainSeparator,
    SRS(usize),
    Text(&'a str),
}

/// What a token says, with its text as a sequence of characters.
pub enum Lexeme {
    SRSSeparator,
    LocalDomainSeparator,
    SRS(usize),
    Text(Seq<char>),
}

impl<'a> View for Token<'a> {
    type V = Lexeme;

    open spec fn view(&self) -> Lexeme {
        match *self {
            Token::SRSSeparator => Lexeme::SRSSeparator,
            Token::LocalDomainSeparator => Lexeme::LocalDomainSeparator,
            Token::SRS(version) => Lexeme::SRS(version),
            Token::Text(text) => Lexeme::Text(text@),
        }
    }
}

/// Whether the separator `sep` cuts at the character `c`. Only a separator
/// of exactly one character cuts anywhere.
pub open spec fn marks(sep: Seq<char>, c: char) -> bool {
    sep.len() == 1 && sep[0] == c
}

/// Where the run of text that starts at `from` ends: at the first cut at or
/// after `from`, or at the end of the input.
pub open spec fn text_end(s: Seq<char>, from: int, srs: Seq<char>, ld: Seq<char>) -> int
    decreases s.len() - from,
{
    if from >= s.len() {
        s.len() as int
    } else if marks(srs, s[from]) || marks(ld, s[from]) {
        from
    } else {
        text_end(s, from + 1, srs, ld)
    }
}

/// The text `SRS` followed by the digit of `version`, which is 0 or 1.
pub open spec fn srs_tag(version: int) -> Seq<char> {
    if version == 0 {
        seq!['S', 'R', 'S', '0']
    } else {
        seq!['S', 'R', 'S', '1']
    }
}

/// The token that starts at `from`, which lies inside the input.
pub open spec fn lexeme_at(s: Seq<char>, from: int, srs: Seq<char>, ld: Seq<char>) -> Lexeme {
    if marks(srs, s[from]) {
        Lexeme::SRSSeparator
    } else if marks(ld, s[from]) {
        Lexeme::LocalDomainSeparator
    } else {
        let text = s.subrange(from, text_end(s, from, srs, ld));
        if text == srs_tag(0) {
            Lexeme::SRS(0)
        } else if text == srs_tag(1) {
            Lexeme::SRS(1)
        } else {
            Lexeme::Text(text)
        }
    }
}

/// How many characters the token that starts at `from` takes.
pub open spec fn lexeme_len(s: Seq<char>, from: int, srs: Seq<char>, ld: Seq<char>) -> int {
    if marks(srs, s[from]) || marks(ld, s[from]) {
        1
    } else {
        text_end(s, from, srs, ld) - from
    }
}

/// All tokens of the input from `from` on.
pub open spec fn lexemes(s: Seq<char>, from: int, srs: Seq<char>, ld: Seq<char>) -> Seq<Lexeme>
    decreases s.len() - from,
{
    if from < 0 || from >= s.len() {
        Seq::empty()
    } else {
        proof {
            lemma_lexeme_len(s, from, srs, ld);
        }
        seq![lexeme_at(s, from, srs, ld)] + lexemes(
            s,
            from + lexeme_len(s, from, srs, ld),
            srs,
            ld,
        )
    }
}

/// The decimal digits of `n`.
pub open spec fn decimal(n: nat) -> Seq<char>
    decreases n,
{
    if n < 10 {
        seq![(n + 48) as char]
    } else {
        decimal(n / 10).push((n % 10 + 48) as char)
    }
}

/// A run of text ends inside the input or at its end, holds no cut, and is
/// followed by a cut unless the input ends there.
pub proof fn lemma_text_end(s: Seq<char>, from: int, srs: Seq<char>, ld: Seq<char>)
    requires
        0 <= from <= s.len(),
    ensures
        from <= text_end(s, from, srs, ld) <= s.len(),
        forall|i: int|
            from <= i < text_end(s, from, srs, ld) ==> !marks(srs, #[trigger] s[i]) && !marks(
                ld,
                s[i],
            ),
        text_end(s, from, srs, ld) < s.len() ==> marks(srs, s[text_end(s, from, srs, ld)])
            || marks(ld, s[text_end(s, from, srs, ld)]),
    decreases s.len() - from,
{
    if from < s.len() && !(marks(srs, s[from]) || marks(ld, s[from])) {
        lemma_text_end(s, from + 1, srs, ld);
    }
}

/// A token takes at least one character and ends inside the input.
pub proof fn lemma_lexeme_len(s: Seq<char>, from: int, srs: Seq<char>, ld: Seq<char>)
    requires
        0 <= from < s.len(),
    ensures
        1 <= lexeme_len(s, from, srs, ld),
        from + lexeme_len(s, from, srs, ld) <= s.len(),
{
    lemma_text_end(s, from + 1, srs, ld);
}

/// A place that a run reaches without meeting a cut, and where a cut or the
/// end of the input stands, is where the run ends.
pub proof fn lemma_text_end_is(s: Seq<char>, from: int, end: int, srs: Seq<char>, ld: Seq<char>)
    requires
        0 <= from <= end <= s.len(),
        forall|i: int| from <= i < end ==> !marks(srs, #[trigger] s[i]) && !marks(ld, s[i]),
        end < s.len() ==> marks(srs, s[end]) || marks(ld, s[end]),
    ensures
        text_end(s, from, srs, ld) == end,
    decreases end - from,
{
    if from < end {
        lemma_text_end_is(s, from + 1, end, srs, ld);
    }
}

/// The piece of the input that a token was cut from.
pub open spec fn lexeme_source(token: Lexeme, srs: Seq<char>, ld: Seq<char>) -> Seq<char> {
    match token {
        Lexeme::SRSSeparator => srs,
        Lexeme::LocalDomainSeparator => ld,
        Lexeme::SRS(version) => srs_tag(version as int),
        Lexeme::Text(text) => text,
    }
}

/// The pieces of the input that the tokens were cut from, one after the
/// other.
pub open spec fn joined(tokens: Seq<Lexeme>, srs: Seq<char>, ld: Seq<char>) -> Seq<char>
    decreases tokens.len(),
{
    if tokens.len() == 0 {
        Seq::empty()
    } else {
        lexeme_source(tokens[0], srs, ld) + joined(tokens.drop_first(), srs, ld)
    }
}

/// Cutting loses nothing: the pieces that the tokens were cut from, put
/// together again, are the input.
pub proof fn lemma_tokens_keep_the_input(s: Seq<char>, from: int, srs: Seq<char>, ld: Seq<char>)
    requires
        0 <= from <= s.len(),
    ensures
        joined(lexemes(s, from, srs, ld), srs, ld) == s.skip(from),
    decreases s.len() - from,
{
    let tokens = lexemes(s, from, srs, ld);
    if from >= s.len() {
        assert(s.skip(from) =~= Seq::<char>::empty());
    } else {
        let n = lexeme_len(s, from, srs, ld);
        lemma_lexeme_len(s, from, srs, ld);
        lemma_tokens_keep_the_input(s, from + n, srs, ld);
        assert(tokens.drop_first() =~= lexemes(s, from + n, srs, ld));
        assert(lexeme_source(tokens[0], srs, ld) =~= s.subrange(from, from + n));
        assert(s.skip(from) =~= s.subrange(from, from + n) + s.skip(from + n));
    }
}

/// The one character of a separator that cuts, if it has exactly one.
fn mark_of(sep: &str) -> (mark: Option<char>)
    ensures
        forall|c: char| marks(sep@, c) <==> mark == Some(c),
{
    single_char(sep)
}

/// Appends the decimal digits of `n` to `out`.
fn push_decimal(out: &mut String, n: usize)
    ensures
        final(out)@ == old(out)@ + decimal(n as nat),
    decreases n,
{
    if n >= 10 {
        push_decimal(out, n / 10);
    }
    out.push(((n % 10) as u8 + 48) as char);
    proof {
        if n < 10 {
            assert(final(out)@ =~= old(out)@ + decimal(n as nat));
        } else {
            assert(final(out)@ =~= old(out)@ + decimal(n as nat));
        }
    }
}

/// Walks over an input and hands out its tokens one by one.
pub struct Tokenizer<'a> {
    input: &'a str,
    chars: Vec<char>,
    /// How many characters have been handed out, and the rest of the input.
    cursor: (usize, &'a str),
    srs_separator: String,
    local_domain_separator: String,
    srs_mark: Option<char>,
    local_domain_mark: Option<char>,
}

impl<'a> Tokenizer<'a> {
    #[verifier::type_invariant]
    spec fn well_formed(&self) -> bool {
        &&& self.chars@ == self.input@
        &&& self.cursor.0 <= self.chars@.len()
        &&& self.cursor.1@ == self.input@.skip(self.cursor.0 as int)
        &&& forall|c: char| marks(self.srs_separator@, c) <==> self.srs_mark == Some(c)
        &&& forall|c: char|
            marks(self.local_domain_separator@, c) <==> self.local_domain_mark == Some(c)
    }

    /// The input that is being cut.
    pub closed spec fn input(&self) -> Seq<char> {
        self.input@
    }

    /// How many characters of the input have been handed out.
    pub closed spec fn position(&self) -> int {
        self.cursor.0 as int
    }

    /// The SRS separator.
    pub closed spec fn srs_separator(&self) -> Seq<char> {
        self.srs_separator@
    }

    /// The separator between local part and domain.
    pub closed spec fn local_domain_separator(&self) -> Seq<char> {
        self.local_domain_separator@
    }

    /// Whether all of the input has been handed out.
    pub open spec fn at_end(&self) -> bool {
        self.position() >= self.input().len()
    }

    /// Whether this tokenizer cuts the same input at the same separators as
    /// `other`.
    pub open spec fn cuts_like(&self, other: &Tokenizer<'a>) -> bool {
        &&& self.input() == other.input()
        &&& self.srs_separator() == other.srs_separator()
        &&& self.local_domain_separator() == other.local_domain_separator()
    }

    /// The token at the present position, which lies inside the input.
    pub open spec fn next_lexeme(&self) -> Lexeme {
        lexeme_at(
            self.input(),
            self.position(),
            self.srs_separator(),
            self.local_domain_separator(),
        )
    }

    /// How many characters the token at the present position takes.
    pub open spec fn next_len(&self) -> int {
        lexeme_len(
            self.input(),
            self.position(),
            self.srs_separator(),
            self.local_domain_separator(),
        )
    }

    /// The piece of the input that the token at the present position takes.
    pub open spec fn next_source(&self) -> Seq<char> {
        self.input().subrange(self.position(), self.position() + self.next_len())
    }

    /// The tokens that are still to come.
    pub open spec fn remaining(&self) -> Seq<Lexeme> {
        lexemes(
            self.input(),
            self.position(),
            self.srs_separator(),
            self.local_domain_separator(),
        )
    }

    /// A tokenizer at the start of `input`, cutting at `srs_sep` and at
    /// `ld_sep`. A separator that is not exactly one character long cuts
    /// nowhere. Where both separators are the same character, it counts as the
    /// SRS separator.
    pub fn tokenize(input: &'a str, srs_sep: &str, ld_sep: &str) -> (t: Tokenizer<'a>)
        ensures
            t.input() == input@,
            t.position() == 0,
            t.srs_separator() == srs_sep@,
            t.local_domain_separator() == ld_sep@,
    {
        assert(input@.skip(0) =~= input@);
        Tokenizer {
            input: input,
            chars: chars_of(input),
            cursor: (0, input),
            srs_separator: srs_sep.to_owned(),
            local_domain_separator: ld_sep.to_owned(),
            srs_mark: mark_of(srs_sep),
            local_domain_mark: mark_of(ld_sep),
        }
    }

    /// How many characters of the input have been handed out.
    pub fn offset(&self) -> (at: usize)
        ensures
            at == self.position(),
            at <= self.input().len(),
    {
        proof {
            use_type_invariant(self);
        }
        self.cursor.0
    }

    /// The part of the input that has not been handed out.
    pub fn rest(&self) -> (text: &'a str)
        ensures
            text@ == self.input().skip(self.position()),
    {
        proof {
            use_type_invariant(self);
        }
        self.cursor.1
    }

    /// The text of a token: the separator itself for a separator, the text of
    /// a run, and for an `SRS` token the decimal digits of its number.
    pub fn text_of_token(&self, token: &Token) -> (text: String)
        ensures
            text@ == match token@ {
                Lexeme::SRSSeparator => self.srs_separator(),
                Lexeme::LocalDomainSeparator => self.local_domain_separator(),
                Lexeme::SRS(version) => decimal(version as nat),
                Lexeme::Text(run) => run,
            },
    {
        match token {
            Token::SRSSeparator => self.srs_separator.clone(),
            Token::LocalDomainSeparator => self.local_domain_separator.clone(),
            Token::SRS(version) => {
                let mut digits = String::new();
                push_decimal(&mut digits, *version);
                assert(Seq::<char>::empty() + decimal(*version as nat) =~= decimal(
                    *version as nat,
                ));
                digits
            },
            Token::Text(run) => (*run).to_owned(),
        }
    }

    /// Hands out the next token together with the piece of the input that it
    /// was cut from, or `None` at the end of the input.
    pub fn next_token_text(&mut self) -> (cut: Option<(Token<'a>, &'a str)>)
        ensures
            final(self).cuts_like(old(self)),
            final(self).position() <= final(self).input().len(),
            old(self).at_end() ==> cut is None,
            old(self).at_end() ==> final(self).position() == old(self).position(),
            !old(self).at_end() ==> final(self).position() == old(self).position()
                + old(self).next_len(),
            !old(self).at_end() ==> (cut matches Some((token, text))
                && token@ == old(self).next_lexeme()
                && text@ == old(self).next_source()),
    {
        proof {
            use_type_invariant(&*self);
        }
        let len: usize = self.chars.len();
        let start: usize = self.cursor.0;
        let rest = self.cursor.1;
        if start >= len {
            return None;
        }
        let ghost s = self.input@;
        let ghost srs = self.srs_separator@;
        let ghost ld = self.local_domain_separator@;
        let first = self.chars[start];
        if is_mark(self.srs_mark, first) {
            let (text, tail) = split_chars(rest, 1);
            proof {
                assert(text@ =~= s.subrange(start as int, start + 1));
                assert(tail@ =~= s.skip(start + 1));
            }
            self.cursor = (start + 1, tail);
            return Some((Token::SRSSeparator, text));
        }
        if is_mark(self.local_domain_mark, first) {
            let (text, tail) = split_chars(rest, 1);
            proof {
                assert(text@ =~= s.subrange(start as int, start + 1));
                assert(tail@ =~= s.skip(start + 1));
            }
            self.cursor = (start + 1, tail);
            return Some((Token::LocalDomainSeparator, text));
        }
        let mut end: usize = start + 1;
        while end < len && !is_mark(self.srs_mark, self.chars[end]) && !is_mark(
            self.local_domain_mark,
            self.chars[end],
        )
            invariant
                start < end <= len,
                len == self.chars@.len(),
                self.chars@ == s,
                forall|c: char| marks(srs, c) <==> self.srs_mark == Some(c),
                forall|c: char| marks(ld, c) <==> self.local_domain_mark == Some(c),
                forall|i: int|
                    start <= i < end ==> !marks(srs, #[trigger] s[i]) && !marks(ld, s[i]),
            decreases len - end,
        {
            end += 1;
        }
        proof {
            lemma_text_end_is(s, start as int, end as int, srs, ld);
        }
        let (text, tail) = split_chars(rest, end - start);
        proof {
            assert(text@ =~= s.subrange(start as int, end as int));
            assert(tail@ =~= s.skip(end as int));
        }
        self.cursor = (end, tail);
        if end - start == 4 && self.chars[start] == 'S' && self.chars[start + 1] == 'R'
            && self.chars[start + 2] == 'S' {
            if self.chars[start + 3] == '0' {
                assert(text@ =~= srs_tag(0));
                return Some((Token::SRS(0), text));
            }
            if self.chars[start + 3] == '1' {
                assert(text@ =~= srs_tag(1));
                return Some((Token::SRS(1), text));
            }
        }
        assert(text@ != srs_tag(0) && text@ != srs_tag(1)) by {
            if text@ == srs_tag(0) || text@ == srs_tag(1) {
                assert(text@.len() == 4);
                assert(text@[0] == 'S' && text@[1] == 'R' && text@[2] == 'S');
                assert(text@[3] == '0' || text@[3] == '1');
            }
        }
        Some((Token::Text(text), text))
    }

    /// Hands out the next token, or `None` at the end of the input.
    pub fn next_token(&mut self) -> (token: Option<Token<'a>>)
        ensures
            final(self).cuts_like(old(self)),
            final(self).position() <= final(self).input().len(),
            old(self).at_end() ==> token is None,
            old(self).at_end() ==> final(self).position() == old(self).position(),
            !old(self).at_end() ==> final(self).position() == old(self).position()
                + old(self).next_len(),
            !old(self).at_end() ==> (token matches Some(t) && t@ == old(self).next_lexeme()),
    {
        match self.next_token_text() {
            Some((token, _)) => Some(token),
            None => None,
        }
    }

    /// Hands out all tokens that are still to come, in order.
    pub fn tokens(&mut self) -> (all: Vec<Token<'a>>)
        ensures
            final(self).cuts_like(old(self)),
            final(self).position() == old(self).input().len(),
            all@.len() == old(self).remaining().len(),
            forall|i: int|
                0 <= i < all@.len() ==> (#[trigger] all@[i])@ == old(self).remaining()[i],
    {
        proof {
            use_type_invariant(&*self);
        }
        let mut all: Vec<Token<'a>> = Vec::new();
        let ghost before = old(self).remaining();
        loop
            invariant
                self.cuts_like(old(self)),
                0 <= self.position() <= self.input().len(),
                before == old(self).remaining(),
                all@.len() + self.remaining().len() == before.len(),
                forall|i: int| 0 <= i < all@.len() ==> (#[trigger] all@[i])@ == before[i],
                forall|i: int|
                    0 <= i < self.remaining().len() ==> self.remaining()[i] == before[all@.len()
                        + i],
            ensures
                self.cuts_like(old(self)),
                self.position() == self.input().len(),
                all@.len() == before.len(),
                forall|i: int| 0 <= i < all@.len() ==> (#[trigger] all@[i])@ == before[i],
            decreases self.input().len() - self.position(),
        {
            let ghost rest = self.remaining();
            let ghost at = self.position();
            match self.next_token() {
                None => {
                    break ;
                },
                Some(token) => {
                    proof {
                        let tail = self.remaining();
                        lemma_lexeme_len(
                            self.input(),
                            at,
                            self.srs_separator(),
                            self.local_domain_separator(),
                        );
                        assert(rest =~= seq![token@] + tail);
                        assert(rest[0] == before[all@.len() as int]);
                        assert forall|i: int| 0 <= i < tail.len() implies tail[i]
                            == before[all@.len() + 1 + i] by {
                            assert(tail[i] == rest[i + 1]);
                        }
                    }
                    all.push(token);
                },
            }
        }
        all
    }
}

/// Whether `c` is the cutting character `mark`.
fn is_mark(mark: Option<char>, c: char) -> (yes: bool)
    ensures
        yes == (mark == Some(c)),
{
    match mark {
        Some(m) => m == c,
        None => false,
    }
}

} // verus!
