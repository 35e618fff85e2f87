//! The command-line tokenizer: a single forward pass over the characters of
//! an input line, producing words, quoted strings and variable references.

use vstd::prelude::*;
use vstd::string::StrSliceExecFns;

verus! {

/// Whitespace for token separation: the Unicode `White_Space` set, as
/// `char::is_whitespace` documents it.
pub open spec fn spec_is_space(c: char) -> bool {
    let u = c as u32;
    u == 0x20 || (0x09 <= u && u <= 0x0d) || u == 0x85 || u == 0xa0 || u == 0x1680 || (0x2000 <= u
        && u <= 0x200a) || u == 0x2028 || u == 0x2029 || u == 0x202f || u == 0x205f || u == 0x3000
}

/// Runtime test for the same whitespace set.
#[verifier::when_used_as_spec(spec_is_space)]
pub fn is_space(c: char) -> (r: bool)
    ensures
        r == spec_is_space(c),
{
    let u = c as u32;
    u == 0x20 || (0x09 <= u && u <= 0x0d) || u == 0x85 || u == 0xa0 || u == 0x1680 || (0x2000 <= u
        && u <= 0x200a) || u == 0x2028 || u == 0x2029 || u == 0x202f || u == 0x205f || u == 0x3000
}

/// A classified fragment of the input line, borrowing its characters from the
/// line itself: a plain word, the contents of a quoted string (quotes
/// stripped), or the name following a `$` sigil (not yet resolved).
#[derive(Debug, Clone, Copy)]
pub enum Token<'a> {
    Word(&'a str),
    Str(&'a str),
    Var(&'a str),
}

/// The mathematical shape of a token: its kind and its characters.
pub ghost enum TokenModel {
    Word(Seq<char>),
    Str(Seq<char>),
    Var(Seq<char>),
}

impl<'a> View for Token<'a> {
    type V = TokenModel;

    open spec fn view(&self) -> TokenModel {
        match self {
            Token::Word(s) => TokenModel::Word(s@),
            Token::Str(s) => TokenModel::Str(s@),
            Token::Var(s) => TokenModel::Var(s@),
        }
    }
}

/// Length of the longest prefix of `s` in which `q` does not occur.
pub open spec fn span_to_char(s: Seq<char>, q: char) -> nat
    decreases s.len(),
{
    if s.len() == 0 {
        0
    } else if s[0] == q {
        0
    } else {
        1 + span_to_char(s.subrange(1, s.len() as int), q)
    }
}

/// Length of the longest prefix of `s` holding no whitespace character.
pub open spec fn span_to_space(s: Seq<char>) -> nat
    decreases s.len(),
{
    if s.len() == 0 {
        0
    } else if spec_is_space(s[0]) {
        0
    } else {
        1 + span_to_space(s.subrange(1, s.len() as int))
    }
}

/// The token sequence of an input line, scanned left to right:
/// whitespace separates tokens and is never part of one; a quote character
/// opens a string that runs to the matching quote (or, if none follows, to
/// the end of the input); a `$` opens a variable name that runs to the next
/// whitespace; anything else opens a word that runs to the next whitespace.
pub open spec fn spec_tokens(s: Seq<char>) -> Seq<TokenModel>
    decreases s.len(),
{
    if s.len() == 0 {
        Seq::empty()
    } else if spec_is_space(s[0]) {
        spec_tokens(s.subrange(1, s.len() as int))
    } else if s[0] == '"' || s[0] == '\'' {
        let body = s.subrange(1, s.len() as int);
        let k = span_to_char(body, s[0]) as int;
        let next = if k + 1 <= body.len() {
            k + 1
        } else {
            body.len() as int
        };
        seq![TokenModel::Str(body.subrange(0, k))] + spec_tokens(
            body.subrange(next, body.len() as int),
        )
    } else if s[0] == '$' {
        let body = s.subrange(1, s.len() as int);
        let k = span_to_space(body) as int;
        let next = if k + 1 <= body.len() {
            k + 1
        } else {
            body.len() as int
        };
        seq![TokenModel::Var(body.subrange(0, k))] + spec_tokens(
            body.subrange(next, body.len() as int),
        )
    } else {
        let k = span_to_space(s) as int;
        let next = if k + 1 <= s.len() {
            k + 1
        } else {
            s.len() as int
        };
        seq![TokenModel::Word(s.subrange(0, k))] + spec_tokens(s.subrange(next, s.len() as int))
    }
}

/// The span of a prefix free of `q` that ends at `q` or at the end of the
/// input is exactly the prefix's length.
proof fn lemma_span_to_char_is(s: Seq<char>, q: char, k: int)
    requires
        0 <= k <= s.len(),
        forall|i: int| 0 <= i < k ==> s[i] != q,
        k == s.len() || s[k] == q,
    ensures
        span_to_char(s, q) == k,
    decreases s.len(),
{
    if k == 0 {
    } else {
        let t = s.subrange(1, s.len() as int);
        assert forall|i: int| 0 <= i < k - 1 implies t[i] != q by {
            assert(t[i] == s[i + 1]);
        }
        lemma_span_to_char_is(t, q, k - 1);
    }
}

/// The span of a whitespace-free prefix that ends at whitespace or at the
/// end of the input is exactly the prefix's length.
proof fn lemma_span_to_space_is(s: Seq<char>, k: int)
    requires
        0 <= k <= s.len(),
        forall|i: int| 0 <= i < k ==> !spec_is_space(s[i]),
        k == s.len() || spec_is_space(s[k]),
    ensures
        span_to_space(s) == k,
    decreases s.len(),
{
    if k == 0 {
    } else {
        let t = s.subrange(1, s.len() as int);
        assert forall|i: int| 0 <= i < k - 1 implies !spec_is_space(t[i]) by {
            assert(t[i] == s[i + 1]);
        }
        lemma_span_to_space_is(t, k - 1);
    }
}

/// The span of a whitespace-free prefix stays inside the sequence and
/// covers no whitespace character.
proof fn lemma_span_to_space_bounds(s: Seq<char>)
    ensures
        span_to_space(s) <= s.len(),
        forall|i: int| 0 <= i < span_to_space(s) ==> !spec_is_space(s[i]),
    decreases s.len(),
{
    if s.len() == 0 || spec_is_space(s[0]) {
    } else {
        let t = s.subrange(1, s.len() as int);
        lemma_span_to_space_bounds(t);
        assert forall|i: int| 0 <= i < span_to_space(s) implies !spec_is_space(s[i]) by {
            if i > 0 {
                assert(t[i - 1] == s[i]);
            }
        }
    }
}

/// What holds of every token's characters: a word or a variable name never
/// holds whitespace (its scan stopped there), and a word holds at least
/// the character that opened it.
pub open spec fn token_within_delimiters(t: TokenModel) -> bool {
    match t {
        TokenModel::Word(w) => w.len() > 0 && (forall|i: int|
            0 <= i < w.len() ==> !spec_is_space(w[i])),
        TokenModel::Var(n) => forall|i: int| 0 <= i < n.len() ==> !spec_is_space(n[i]),
        TokenModel::Str(_) => true,
    }
}

/// A token never crosses the delimiter that produced it: no token of any
/// line holds the whitespace that ended it.
pub proof fn lemma_tokens_within_delimiters(s: Seq<char>)
    ensures
        forall|j: int|
            0 <= j < spec_tokens(s).len() ==> #[trigger] token_within_delimiters(
                spec_tokens(s)[j],
            ),
    decreases s.len(),
{
    if s.len() == 0 {
        assert(spec_tokens(s).len() == 0);
    } else if spec_is_space(s[0]) {
        let t = s.subrange(1, s.len() as int);
        lemma_tokens_within_delimiters(t);
        assert(spec_tokens(s) == spec_tokens(t));
        assert forall|j: int| 0 <= j < spec_tokens(s).len() implies token_within_delimiters(
            spec_tokens(s)[j],
        ) by {
            assert(token_within_delimiters(spec_tokens(t)[j]));
        }
    } else {
        let body = s.subrange(1, s.len() as int);
        let head: TokenModel;
        let rest: Seq<TokenModel>;
        if s[0] == '"' || s[0] == '\'' {
            let k = span_to_char(body, s[0]) as int;
            let next = if k + 1 <= body.len() {
                k + 1
            } else {
                body.len() as int
            };
            head = TokenModel::Str(body.subrange(0, k));
            rest = spec_tokens(body.subrange(next, body.len() as int));
            lemma_tokens_within_delimiters(body.subrange(next, body.len() as int));
        } else if s[0] == '$' {
            let k = span_to_space(body) as int;
            let next = if k + 1 <= body.len() {
                k + 1
            } else {
                body.len() as int
            };
            head = TokenModel::Var(body.subrange(0, k));
            rest = spec_tokens(body.subrange(next, body.len() as int));
            lemma_span_to_space_bounds(body);
            lemma_tokens_within_delimiters(body.subrange(next, body.len() as int));
        } else {
            let k = span_to_space(s) as int;
            let next = if k + 1 <= s.len() {
                k + 1
            } else {
                s.len() as int
            };
            head = TokenModel::Word(s.subrange(0, k));
            rest = spec_tokens(s.subrange(next, s.len() as int));
            lemma_span_to_space_bounds(s);
            lemma_tokens_within_delimiters(s.subrange(next, s.len() as int));
        }
        assert(spec_tokens(s) == seq![head] + rest);
        assert(token_within_delimiters(head));
        assert forall|j: int| 0 <= j < spec_tokens(s).len() implies token_within_delimiters(
            spec_tokens(s)[j],
        ) by {
            if j > 0 {
                assert(spec_tokens(s)[j] == rest[j - 1]);
            }
        }
    }
}

/// A line of whitespace alone has no tokens.
pub proof fn lemma_all_space_tokens_empty(s: Seq<char>)
    requires
        forall|i: int| 0 <= i < s.len() ==> spec_is_space(s[i]),
    ensures
        spec_tokens(s) == Seq::<TokenModel>::empty(),
    decreases s.len(),
{
    if s.len() > 0 {
        let t = s.subrange(1, s.len() as int);
        assert forall|i: int| 0 <= i < t.len() implies spec_is_space(t[i]) by {
            assert(t[i] == s[i + 1]);
        }
        lemma_all_space_tokens_empty(t);
    }
}

/// An unterminated quote is not an error: the string token runs to the end
/// of the input.
pub proof fn lemma_unterminated_quote(s: Seq<char>)
    requires
        s.len() > 0,
        s[0] == '"' || s[0] == '\'',
        forall|i: int| #![trigger s[i]] 1 <= i < s.len() ==> s[i] != s[0],
    ensures
        spec_tokens(s) == seq![TokenModel::Str(s.subrange(1, s.len() as int))],
{
    let body = s.subrange(1, s.len() as int);
    assert forall|i: int| 0 <= i < body.len() implies body[i] != s[0] by {
        assert(body[i] == s[i + 1]);
    }
    lemma_span_to_char_is(body, s[0], body.len() as int);
    assert(!spec_is_space(s[0]));
    assert(body.subrange(0, body.len() as int) =~= body);
    assert(body.subrange(body.len() as int, body.len() as int) =~= Seq::<char>::empty());
    assert(spec_tokens(Seq::<char>::empty()) == Seq::<TokenModel>::empty());
    assert(spec_tokens(s) == seq![TokenModel::Str(body.subrange(0, body.len() as int))]
        + spec_tokens(body.subrange(body.len() as int, body.len() as int)));
    assert(seq![TokenModel::Str(body)] + Seq::<TokenModel>::empty() =~= seq![
        TokenModel::Str(body),
    ]);
    assert(spec_tokens(s) =~= seq![TokenModel::Str(body)]);
}

/// The tokenizer: a non-restartable cursor over the characters of one input
/// line. `pos` is a character position, never a byte position.
pub struct Lexer<'a> {
    input: &'a str,
    len: usize,
    pos: usize,
}

impl<'a> Lexer<'a> {
    /// The cursor sits inside the input and `len` caches its character count.
    pub closed spec fn wf(self) -> bool {
        self.len == self.input@.len() && self.pos <= self.len
    }

    /// The characters not yet consumed.
    pub closed spec fn remaining(self) -> Seq<char> {
        self.input@.subrange(self.pos as int, self.input@.len() as int)
    }

    pub fn new(input: &'a str) -> (r: Lexer<'a>)
        ensures
            r.wf(),
            r.remaining() == input@,
    {
        let len = input.unicode_len();
        let r = Lexer { input, len, pos: 0 };
        proof {
            assert(r.remaining() =~= input@);
        }
        r
    }

    /// One step of tokenization: `None` exactly when no token is left, else
    /// the next token, with the cursor moved past it.
    pub fn next(&mut self) -> (r: Option<Token<'a>>)
        requires
            old(self).wf(),
        ensures
            final(self).wf(),
            match r {
                None => {
                    &&& spec_tokens(old(self).remaining()) == Seq::<TokenModel>::empty()
                    &&& final(self).remaining().len() == 0
                },
                Some(t) => {
                    &&& spec_tokens(old(self).remaining()) == seq![t@] + spec_tokens(
                        final(self).remaining(),
                    )
                    &&& final(self).remaining().len() < old(self).remaining().len()
                },
            },
    {
        while self.pos < self.len && is_space(self.input.get_char(self.pos))
            invariant
                self.wf(),
                self.input == old(self).input,
                spec_tokens(self.remaining()) == spec_tokens(old(self).remaining()),
                self.remaining().len() <= old(self).remaining().len(),
            decreases self.len - self.pos,
        {
            proof {
                let rem = self.remaining();
                assert(rem[0] == self.input@[self.pos as int]);
                assert(rem.subrange(1, rem.len() as int) =~= self.input@.subrange(
                    self.pos + 1,
                    self.input@.len() as int,
                ));
            }
            self.pos = self.pos + 1;
        }
        if self.pos == self.len {
            proof {
                assert(self.remaining() =~= Seq::<char>::empty());
            }
            return None;
        }
        let ghost lx = *self;
        let c = self.input.get_char(self.pos);
        proof {
            assert(lx.remaining()[0] == c);
            assert(!spec_is_space(c));
        }
        if c == '"' || c == '\'' {
            let start = self.pos + 1;
            let mut end = start;
            while end < self.len && self.input.get_char(end) != c
                invariant
                    *self == lx,
                    lx.wf(),
                    start == lx.pos + 1,
                    start <= end <= lx.len,
                    forall|i: int| start <= i < end ==> lx.input@[i] != c,
                decreases self.len - end,
            {
                end = end + 1;
            }
            let content = self.input.substring_char(start, end);
            let newpos = if end < self.len {
                end + 1
            } else {
                end
            };
            proof {
                self.lemma_token_step(lx, c, start as int, end as int, newpos as int);
            }
            self.pos = newpos;
            Some(Token::Str(content))
        } else if c == '$' {
            let start = self.pos + 1;
            let mut end = start;
            while end < self.len && !is_space(self.input.get_char(end))
                invariant
                    *self == lx,
                    lx.wf(),
                    start == lx.pos + 1,
                    start <= end <= lx.len,
                    forall|i: int| start <= i < end ==> !spec_is_space(lx.input@[i]),
                decreases self.len - end,
            {
                end = end + 1;
            }
            let content = self.input.substring_char(start, end);
            let newpos = if end < self.len {
                end + 1
            } else {
                end
            };
            proof {
                self.lemma_token_step(lx, c, start as int, end as int, newpos as int);
            }
            self.pos = newpos;
            Some(Token::Var(content))
        } else {
            let start = self.pos;
            let mut end = start;
            while end < self.len && !is_space(self.input.get_char(end))
                invariant
                    *self == lx,
                    lx.wf(),
                    start == lx.pos,
                    start <= end <= lx.len,
                    forall|i: int| start <= i < end ==> !spec_is_space(lx.input@[i]),
                decreases self.len - end,
            {
                end = end + 1;
            }
            let content = self.input.substring_char(start, end);
            let newpos = if end < self.len {
                end + 1
            } else {
                end
            };
            proof {
                self.lemma_word_step(lx, c, end as int, newpos as int);
            }
            self.pos = newpos;
            Some(Token::Word(content))
        }
    }

    /// After scanning a quoted string or a variable name whose content spans
    /// the character positions `start..end`, the token sequence of the
    /// remaining input splits into that one token and the tokens after
    /// position `newpos`.
    proof fn lemma_token_step(self, lx: Lexer<'a>, c: char, start: int, end: int, newpos: int)
        requires
            self == lx,
            lx.wf(),
            lx.pos < lx.len,
            start == lx.pos + 1,
            start <= end <= lx.len,
            lx.remaining()[0] == c,
            !spec_is_space(c),
            c == '"' || c == '\'' || c == '$',
            (c == '"' || c == '\'') ==> (forall|i: int| start <= i < end ==> lx.input@[i] != c) && (
            end == lx.len || lx.input@[end] == c),
            c == '$' ==> (forall|i: int| start <= i < end ==> !spec_is_space(lx.input@[i])) && (end
                == lx.len || spec_is_space(lx.input@[end])),
            newpos == if end < lx.len {
                end + 1
            } else {
                end
            },
        ensures
            ({
                let tok = if c == '$' {
                    TokenModel::Var(lx.input@.subrange(start, end))
                } else {
                    TokenModel::Str(lx.input@.subrange(start, end))
                };
                let after = Lexer { pos: newpos as usize, ..lx };
                &&& spec_tokens(lx.remaining()) == seq![tok] + spec_tokens(after.remaining())
                &&& after.remaining().len() < lx.remaining().len()
                &&& after.wf()
            }),
    {
        let rem = lx.remaining();
        let body = rem.subrange(1, rem.len() as int);
        let n = lx.input@.len() as int;
        assert(body =~= lx.input@.subrange(start, n));
        let k = end - start;
        if c == '$' {
            assert forall|i: int| 0 <= i < k implies !spec_is_space(body[i]) by {
                assert(body[i] == lx.input@[start + i]);
            }
            if k < body.len() {
                assert(body[k] == lx.input@[end]);
            }
            lemma_span_to_space_is(body, k);
        } else {
            assert forall|i: int| 0 <= i < k implies body[i] != c by {
                assert(body[i] == lx.input@[start + i]);
            }
            if k < body.len() {
                assert(body[k] == lx.input@[end]);
            }
            lemma_span_to_char_is(body, c, k);
        }
        let after = Lexer { pos: newpos as usize, ..lx };
        assert(body.subrange(0, k) =~= lx.input@.subrange(start, end));
        let next = if k + 1 <= body.len() {
            k + 1
        } else {
            body.len() as int
        };
        assert(body.subrange(next, body.len() as int) =~= after.remaining());
    }

    /// After scanning a word that spans the character positions
    /// `lx.pos..end`, the token sequence of the remaining input splits into
    /// that word and the tokens after position `newpos`.
    proof fn lemma_word_step(self, lx: Lexer<'a>, c: char, end: int, newpos: int)
        requires
            self == lx,
            lx.wf(),
            lx.pos < lx.len,
            lx.pos <= end <= lx.len,
            lx.remaining()[0] == c,
            !spec_is_space(c),
            c != '"',
            c != '\'',
            c != '$',
            forall|i: int| lx.pos <= i < end ==> !spec_is_space(lx.input@[i]),
            end == lx.len || spec_is_space(lx.input@[end]),
            newpos == if end < lx.len {
                end + 1
            } else {
                end
            },
        ensures
            ({
                let tok = TokenModel::Word(lx.input@.subrange(lx.pos as int, end));
                let after = Lexer { pos: newpos as usize, ..lx };
                &&& spec_tokens(lx.remaining()) == seq![tok] + spec_tokens(after.remaining())
                &&& after.remaining().len() < lx.remaining().len()
                &&& after.wf()
            }),
    {
        let rem = lx.remaining();
        let start = lx.pos as int;
        let n = lx.input@.len() as int;
        let k = end - start;
        assert forall|i: int| 0 <= i < k implies !spec_is_space(rem[i]) by {
            assert(rem[i] == lx.input@[start + i]);
        }
        if k < rem.len() {
            assert(rem[k] == lx.input@[end]);
        }
        lemma_span_to_space_is(rem, k);
        let after = Lexer { pos: newpos as usize, ..lx };
        assert(rem.subrange(0, k) =~= lx.input@.subrange(start, end));
        let next = if k + 1 <= rem.len() {
            k + 1
        } else {
            rem.len() as int
        };
        assert(rem.subrange(next, rem.len() as int) =~= after.remaining());
    }
}

/// The views of a sequence of tokens.
pub open spec fn views_of<'a>(toks: Seq<Token<'a>>) -> Seq<TokenModel> {
    toks.map_values(|t: Token<'a>| t@)
}

/// Tokenize a whole line at once.
pub fn tokenize<'a>(input: &'a str) -> (toks: Vec<Token<'a>>)
    ensures
        views_of(toks@) == spec_tokens(input@),
{
    let mut lx = Lexer::new(input);
    let mut toks: Vec<Token<'a>> = Vec::new();
    loop
        invariant
            lx.wf(),
            views_of(toks@) + spec_tokens(lx.remaining()) == spec_tokens(input@),
        decreases lx.remaining().len(),
    {
        let ghost rem0 = lx.remaining();
        let ghost tv0 = toks@;
        match lx.next() {
            None => {
                proof {
                    assert(views_of(tv0) =~= views_of(tv0) + Seq::<TokenModel>::empty());
                }
                return toks;
            },
            Some(t) => {
                toks.push(t);
                proof {
                    assert(views_of(toks@) =~= views_of(tv0).push(t@));
                    assert(views_of(toks@) + spec_tokens(lx.remaining()) =~= views_of(tv0) + (
                    seq![t@] + spec_tokens(lx.remaining())));
                }
            },
        }
    }
}

} // verus!
