//! The lexer: scans a raw input line into tokens, handling blanks, greedy
//! operator recognition, backslash escapes, and single- and double-quoted
//! runs.
//!
//! The scanning rules are written once as recursive specification
//! functions over `Seq<char>` ([`op_scan`], [`quoted_body`], [`lex_token`],
//! [`lex_spec`]); the executable scanner is proved to return exactly what
//! they describe, for every input. The lexer is total: it has no
//! precondition and always terminates with a finite token sequence.

use vstd::prelude::*;
use crate::tokens::{is_blank_char, is_op_prefix, op_of, token_of, Token, TokenV};
use crate::text::{chars_to_string, str_chars};

verus! {

// ---------------------------------------------------------------------
// Greedy operator scanning.
// ---------------------------------------------------------------------

/// Greedily extends `buf` with characters of `s` starting at `i` while the
/// accumulated text is still a possible prefix of some operator, and
/// returns the longest such text.
pub open spec fn op_scan(s: Seq<char>, i: int, buf: Seq<char>) -> Seq<char>
    decreases s.len() - i,
{
    if i < s.len() && is_op_prefix(buf.push(s[i])) {
        op_scan(s, i + 1, buf.push(s[i]))
    } else {
        buf
    }
}

/// The operator scan consumes at most the characters that remain.
proof fn lemma_op_scan_len(s: Seq<char>, i: int, buf: Seq<char>)
    requires
        i <= s.len(),
    ensures
        buf.len() <= op_scan(s, i, buf).len(),
        op_scan(s, i, buf).len() - buf.len() <= s.len() - i,
    decreases s.len() - i,
{
    if i < s.len() && is_op_prefix(buf.push(s[i])) {
        lemma_op_scan_len(s, i + 1, buf.push(s[i]));
    }
}

/// Scans for an operator starting at `pos` without consuming anything:
/// the longest run that stays a possible operator prefix is built, and
/// returned exactly when it spells a complete operator.
pub fn try_build_operator(chars: &Vec<char>, pos: usize) -> (r: Result<Vec<char>, ()>)
    requires
        pos <= chars@.len(),
    ensures
        ({
            let b = op_scan(chars@, pos as int, Seq::empty());
            match r {
                Ok(v) => v@ == b && op_of(b) is Some && pos + b.len() <= chars@.len(),
                Err(_) => op_of(b) is None,
            }
        }),
{
    let mut buf: Vec<char> = Vec::new();
    let mut j: usize = pos;
    let mut done = false;
    while !done
        invariant
            pos <= j <= chars@.len(),
            j - pos == buf@.len(),
            op_scan(chars@, pos as int, Seq::empty()) == op_scan(chars@, j as int, buf@),
            done ==> buf@ == op_scan(chars@, pos as int, Seq::empty()),
        decreases chars@.len() - j + (if done { 0int } else { 1int }),
    {
        if j >= chars.len() {
            proof {
                assert(op_scan(chars@, j as int, buf@) == buf@);
            }
            done = true;
        } else {
            let c = chars[j];
            buf.push(c);
            if crate::tokens::may_start_with_chars(&buf) {
                j = j + 1;
            } else {
                let ghost prev = buf@.drop_last();
                buf.pop();
                proof {
                    assert(buf@ =~= prev);
                    assert(op_scan(chars@, j as int, buf@) == buf@);
                }
                done = true;
            }
        }
    }
    proof {
        lemma_op_scan_len(chars@, pos as int, Seq::empty());
    }
    match crate::tokens::operator_of_chars(&buf) {
        Some(_) => Ok(buf),
        None => Err(()),
    }
}

// ---------------------------------------------------------------------
// Quoted runs.
// ---------------------------------------------------------------------

/// What a backslash inside a double-quoted run contributes, reading at
/// `j` (the position after the backslash): `\$`, `\\` and `\"` reduce to
/// the escaped character, any other `\x` stays as the two characters, and
/// a backslash that ends the input stays a literal backslash.
pub open spec fn escape_in_dquote(s: Seq<char>, j: int) -> (Seq<char>, int) {
    if j >= s.len() {
        (seq!['\\'], j)
    } else {
        let e = s[j];
        if e == '$' || e == '\\' || e == '"' {
            (seq![e], j + 1)
        } else {
            (seq!['\\', e], j + 1)
        }
    }
}

/// Scans a quoted run with delimiter `d`, reading at `j`, with `acc` the
/// content built so far and `start` the position of the opening quote.
/// Returns the contributed text, the position after the run, and whether
/// the closing quote was found; an unterminated run contributes the raw
/// tail from the opening quote on.
pub open spec fn quoted_body(s: Seq<char>, d: char, j: int, acc: Seq<char>, start: int) -> (
    Seq<char>,
    int,
    bool,
)
    decreases s.len() - j,
{
    if j >= s.len() {
        (s.subrange(start, s.len() as int), s.len() as int, false)
    } else if s[j] == d {
        (acc, j + 1, true)
    } else if s[j] == '\\' && d == '"' {
        let e = escape_in_dquote(s, j + 1);
        quoted_body(s, d, e.1, acc + e.0, start)
    } else {
        quoted_body(s, d, j + 1, acc.push(s[j]), start)
    }
}

/// The quoted scan moves forward and never past the end.
proof fn lemma_quoted_body_pos(s: Seq<char>, d: char, j: int, acc: Seq<char>, start: int)
    requires
        j <= s.len(),
    ensures
        j <= quoted_body(s, d, j, acc, start).1 <= s.len(),
    decreases s.len() - j,
{
    if j >= s.len() {
    } else if s[j] == d {
    } else if s[j] == '\\' && d == '"' {
        let e = escape_in_dquote(s, j + 1);
        lemma_quoted_body_pos(s, d, e.1, acc + e.0, start);
    } else {
        lemma_quoted_body_pos(s, d, j + 1, acc.push(s[j]), start);
    }
}

/// The characters of `chars` from `start` on.
fn vec_suffix(chars: &Vec<char>, start: usize) -> (r: Vec<char>)
    requires
        start <= chars@.len(),
    ensures
        r@ == chars@.subrange(start as int, chars@.len() as int),
{
    let mut r: Vec<char> = Vec::new();
    let mut i: usize = start;
    while i < chars.len()
        invariant
            start <= i <= chars@.len(),
            r@ == chars@.subrange(start as int, i as int),
        decreases chars@.len() - i,
    {
        r.push(chars[i]);
        i = i + 1;
        proof {
            assert(r@ =~= chars@.subrange(start as int, i as int));
        }
    }
    r
}

/// What one backslash escape inside a double-quoted run contributes.
/// `pos` stands just after the backslash and is advanced past what was
/// consumed.
pub fn proccess_escape_in_double_quote(chars: &Vec<char>, pos: &mut usize) -> (out: Vec<char>)
    requires
        *old(pos) <= chars@.len(),
    ensures
        out@ == escape_in_dquote(chars@, *old(pos) as int).0,
        *final(pos) as int == escape_in_dquote(chars@, *old(pos) as int).1,
        *old(pos) <= *final(pos) <= chars@.len(),
{
    let mut out: Vec<char> = Vec::new();
    if *pos >= chars.len() {
        out.push('\\');
        proof {
            assert(out@ =~= seq!['\\']);
        }
    } else {
        let e = chars[*pos];
        if e == '$' || e == '\\' || e == '"' {
            out.push(e);
            proof {
                assert(out@ =~= seq![e]);
            }
        } else {
            out.push('\\');
            out.push(e);
            proof {
                assert(out@ =~= seq!['\\', e]);
            }
        }
        *pos = *pos + 1;
    }
    out
}

/// Scans a quoted run whose opening quote stands at `pos`. `pos` is
/// advanced past the run. The content is returned in `Ok` when the
/// closing quote was found; an unterminated run returns the raw tail from
/// the opening quote in `Err`, as the shell emits such a run as-is.
pub fn build_quoted(chars: &Vec<char>, pos: &mut usize) -> (r: Result<Vec<char>, Vec<char>>)
    requires
        *old(pos) < chars@.len(),
    ensures
        ({
            let q = quoted_body(
                chars@,
                chars@[*old(pos) as int],
                *old(pos) + 1,
                Seq::empty(),
                *old(pos) as int,
            );
            &&& *final(pos) as int == q.1
            &&& *old(pos) < *final(pos) <= chars@.len()
            &&& match r {
                Ok(v) => v@ == q.0 && q.2,
                Err(v) => v@ == q.0 && !q.2,
            }
        }),
{
    let n = chars.len();
    let start_pos = *pos;
    let ghost start = *pos as int;
    let ghost q = quoted_body(chars@, chars@[*old(pos) as int], *old(pos) + 1, Seq::empty(), *old(
        pos,
    ) as int);
    let delimiter = chars[*pos];
    *pos = *pos + 1;
    let mut out: Vec<char> = Vec::new();
    let mut result: Result<Vec<char>, Vec<char>> = Ok(Vec::new());
    let mut done = false;
    while !done
        invariant
            n == chars@.len(),
            start_pos as int == start,
            start + 1 <= *pos as int <= chars@.len(),
            0 <= start < chars@.len(),
            delimiter == chars@[start],
            q == quoted_body(chars@, delimiter, start + 1, Seq::empty(), start),
            !done ==> q == quoted_body(chars@, delimiter, *pos as int, out@, start),
            done ==> *pos as int == q.1 && match result {
                Ok(v) => v@ == q.0 && q.2,
                Err(v) => v@ == q.0 && !q.2,
            },
        decreases chars@.len() - *pos + (if done { 0int } else { 1int }),
    {
        let ghost p0 = *pos as int;
        let ghost sofar = out@;
        if *pos >= n {
            let tail = vec_suffix(chars, start_pos);
            proof {
                assert(quoted_body(chars@, delimiter, p0, sofar, start) == (
                    chars@.subrange(start, chars@.len() as int),
                    chars@.len() as int,
                    false,
                ));
            }
            result = Err(tail);
            done = true;
        } else {
            let c = chars[*pos];
            if c == delimiter {
                proof {
                    assert(quoted_body(chars@, delimiter, p0, sofar, start) == (
                        sofar,
                        p0 + 1,
                        true,
                    ));
                }
                *pos = *pos + 1;
                let finished = out;
                out = Vec::new();
                result = Ok(finished);
                done = true;
            } else if c == '\\' && delimiter == '"' {
                proof {
                    assert(quoted_body(chars@, delimiter, p0, sofar, start) == quoted_body(
                        chars@,
                        delimiter,
                        escape_in_dquote(chars@, p0 + 1).1,
                        sofar + escape_in_dquote(chars@, p0 + 1).0,
                        start,
                    ));
                }
                *pos = *pos + 1;
                let mut add = proccess_escape_in_double_quote(chars, pos);
                out.append(&mut add);
            } else {
                proof {
                    assert(quoted_body(chars@, delimiter, p0, sofar, start) == quoted_body(
                        chars@,
                        delimiter,
                        p0 + 1,
                        sofar.push(c),
                        start,
                    ));
                }
                out.push(c);
                *pos = *pos + 1;
            }
        }
    }
    result
}

// ---------------------------------------------------------------------
// One token.
// ---------------------------------------------------------------------

/// Scans one token of `s` starting at `i`, with `acc` the text built so
/// far. Returns the token's text (empty only when the input is exhausted
/// before any text accumulates) and the position to resume at.
///
/// The rules: blanks outside quotes delimit tokens and are never emitted;
/// a character that could start an operator triggers a greedy operator
/// scan, and a complete operator both ends an in-progress word and forms
/// a token of its own; a backslash outside quotes contributes the next
/// character literally; quoted runs contribute their content; everything
/// else extends the current word.
pub open spec fn lex_token(s: Seq<char>, i: int, acc: Seq<char>) -> (Seq<char>, int)
    decreases s.len() - i,
        when i <= s.len() via lex_token_dec
{
    if i >= s.len() {
        (acc, i)
    } else {
        let c = s[i];
        if is_blank_char(c) {
            if acc.len() > 0 {
                (acc, i + 1)
            } else {
                lex_token(s, i + 1, acc)
            }
        } else if is_op_prefix(seq![c]) {
            let b = op_scan(s, i, Seq::empty());
            if op_of(b) is Some {
                if acc.len() > 0 {
                    (acc, i)
                } else {
                    (b, i + b.len())
                }
            } else {
                lex_token(s, i + 1, acc.push(c))
            }
        } else if c == '\\' {
            if i + 1 < s.len() {
                lex_token(s, i + 2, acc.push(s[i + 1]))
            } else {
                (acc, s.len() as int)
            }
        } else if c == '"' || c == '\'' {
            let q = quoted_body(s, c, i + 1, Seq::empty(), i);
            lex_token(s, q.1, acc + q.0)
        } else {
            lex_token(s, i + 1, acc.push(c))
        }
    }
}

#[via_fn]
proof fn lex_token_dec(s: Seq<char>, i: int, acc: Seq<char>) {
    if i < s.len() {
        lemma_quoted_body_pos(s, s[i], i + 1, Seq::empty(), i);
    }
}

/// The token scan moves forward, never past the end, and strictly forward
/// whenever it finds any text.
proof fn lemma_lex_token_pos(s: Seq<char>, i: int, acc: Seq<char>)
    requires
        i <= s.len(),
    ensures
        i <= lex_token(s, i, acc).1 <= s.len(),
        lex_token(s, i, acc).0.len() >= acc.len(),
        acc.len() == 0 && lex_token(s, i, acc).0.len() > 0 ==> lex_token(s, i, acc).1 > i,
        lex_token(s, i, acc).0.len() == 0 ==> lex_token(s, i, acc).1 == s.len(),
    decreases s.len() - i,
{
    if i >= s.len() {
    } else {
        let c = s[i];
        if is_blank_char(c) {
            if acc.len() > 0 {
            } else {
                lemma_lex_token_pos(s, i + 1, acc);
            }
        } else if is_op_prefix(seq![c]) {
            let b = op_scan(s, i, Seq::empty());
            assert(Seq::<char>::empty().push(c) =~= seq![c]);
            lemma_op_scan_len(s, i, Seq::empty());
            if op_of(b) is Some {
                assert(b.len() >= 1) by {
                    if b.len() == 0 {
                        assert(op_of(b) is None);
                    }
                }
            }
            if op_of(b) is Some {
            } else {
                lemma_lex_token_pos(s, i + 1, acc.push(c));
            }
        } else if c == '\\' {
            if i + 1 < s.len() {
                lemma_lex_token_pos(s, i + 2, acc.push(s[i + 1]));
            }
        } else if c == '"' || c == '\'' {
            let q = quoted_body(s, c, i + 1, Seq::empty(), i);
            lemma_quoted_body_pos(s, c, i + 1, Seq::empty(), i);
            lemma_lex_token_pos(s, q.1, acc + q.0);
        } else {
            lemma_lex_token_pos(s, i + 1, acc.push(c));
        }
    }
}

/// Scans one token starting at `pos` and returns its text together with
/// the position to resume at. Empty text means the input is exhausted.
pub fn next_token(chars: &Vec<char>, pos: usize) -> (r: (Vec<char>, usize))
    requires
        pos <= chars@.len(),
    ensures
        r.0@ == lex_token(chars@, pos as int, Seq::empty()).0,
        r.1 as int == lex_token(chars@, pos as int, Seq::empty()).1,
        pos <= r.1 <= chars@.len(),
        r.0@.len() > 0 ==> r.1 > pos,
        r.0@.len() == 0 ==> r.1 == chars@.len(),
{
    proof {
        lemma_lex_token_pos(chars@, pos as int, Seq::empty());
    }
    let n = chars.len();
    let ghost target = lex_token(chars@, pos as int, Seq::empty());
    let mut i: usize = pos;
    let mut builder: Vec<char> = Vec::new();
    let mut done = false;
    while !done
        invariant
            pos <= i <= chars@.len(),
            n == chars@.len(),
            target == lex_token(chars@, pos as int, Seq::empty()),
            !done ==> target == lex_token(chars@, i as int, builder@),
            done ==> builder@ == target.0 && i as int == target.1,
        decreases chars@.len() - i + (if done { 0int } else { 1int }),
    {
        let ghost i0 = i as int;
        let ghost b0 = builder@;
        if i >= n {
            done = true;
        } else {
            let c = chars[i];
            let mut single: Vec<char> = Vec::new();
            single.push(c);
            proof {
                assert(single@ =~= seq![c]);
            }
            if crate::tokens::is_shell_blank(c) {
                i = i + 1;
                if builder.len() > 0 {
                    done = true;
                }
            } else if crate::tokens::may_start_with_chars(&single) {
                match try_build_operator(chars, i) {
                    Ok(opv) => {
                        if builder.len() > 0 {
                            done = true;
                        } else {
                            i = i + opv.len();
                            builder = opv;
                            done = true;
                        }
                    },
                    Err(_) => {
                        builder.push(c);
                        i = i + 1;
                    },
                }
            } else if c == '\\' {
                if i + 1 < n {
                    builder.push(chars[i + 1]);
                    i = i + 2;
                } else {
                    i = n;
                    done = true;
                }
            } else if c == '"' || c == '\'' {
                let mut p = i;
                let ghost qb = quoted_body(chars@, c, i0 + 1, Seq::empty(), i0);
                let content = match build_quoted(chars, &mut p) {
                    Ok(v) => v,
                    Err(v) => v,
                };
                let mut content = content;
                builder.append(&mut content);
                i = p;
                proof {
                    assert(builder@ == b0 + qb.0);
                }
            } else {
                builder.push(c);
                i = i + 1;
            }
        }
    }
    (builder, i)
}

// ---------------------------------------------------------------------
// The whole line.
// ---------------------------------------------------------------------

/// The models of a sequence of tokens.
pub open spec fn views_of(ts: Seq<Token>) -> Seq<TokenV> {
    ts.map_values(|t: Token| t@)
}

/// The token sequence the lexer produces for `s` from position `i` on:
/// token texts are scanned one after the other until the input is
/// exhausted, and each text is read back as an operator, a reserved word,
/// or a simple word.
pub open spec fn lex_spec(s: Seq<char>, i: int) -> Seq<TokenV>
    decreases s.len() - i,
        when 0 <= i <= s.len() via lex_spec_dec
{
    let r = lex_token(s, i, Seq::empty());
    if r.0.len() == 0 {
        Seq::empty()
    } else {
        seq![token_of(r.0)] + lex_spec(s, r.1)
    }
}

#[via_fn]
proof fn lex_spec_dec(s: Seq<char>, i: int) {
    lemma_lex_token_pos(s, i, Seq::empty());
}

/// Whether a token holds any text: an operator always does, and a word
/// counts by its text.
pub open spec fn token_nonempty(t: TokenV) -> bool {
    match t {
        TokenV::Operator(_) => true,
        TokenV::Word(w) => crate::tokens::word_text(w).len() > 0,
    }
}

proof fn lemma_lex_spec_nonempty_from(s: Seq<char>, i: int)
    requires
        0 <= i <= s.len(),
    ensures
        forall|k: int|
            0 <= k < lex_spec(s, i).len() ==> token_nonempty(#[trigger] lex_spec(s, i)[k]),
    decreases s.len() - i,
{
    reveal_strlit("if");
    reveal_strlit("then");
    reveal_strlit("time");
    lemma_lex_token_pos(s, i, Seq::empty());
    let r = lex_token(s, i, Seq::empty());
    if r.0.len() > 0 {
        assert(token_nonempty(token_of(r.0)));
        lemma_lex_spec_nonempty_from(s, r.1);
        assert forall|k: int| 0 <= k < lex_spec(s, i).len() implies token_nonempty(
            #[trigger] lex_spec(s, i)[k],
        ) by {
            if k > 0 {
                assert(lex_spec(s, i)[k] == lex_spec(s, r.1)[k - 1]);
            }
        }
    }
}

/// Lexer framing: no token the lexer yields is empty — an operator
/// stands for its spelling, and a word always carries text.
pub proof fn lemma_lex_tokens_nonempty(s: Seq<char>)
    ensures
        forall|k: int|
            0 <= k < lex_spec(s, 0).len() ==> token_nonempty(#[trigger] lex_spec(s, 0)[k]),
{
    lemma_lex_spec_nonempty_from(s, 0);
}

/// Lexes a whole input line. Total: accepts every string and always
/// terminates; the result is exactly the token sequence of [`lex_spec`].
pub fn lex(input: &str) -> (tokens: Vec<Token>)
    ensures
        views_of(tokens@) == lex_spec(input@, 0),
{
    let chars = str_chars(input);
    let mut tokens: Vec<Token> = Vec::new();
    let mut pos: usize = 0;
    let mut done = false;
    while !done
        invariant
            pos <= chars@.len(),
            chars@ == input@,
            !done ==> views_of(tokens@) + lex_spec(chars@, pos as int) == lex_spec(input@, 0),
            done ==> views_of(tokens@) == lex_spec(input@, 0),
        decreases chars@.len() - pos + (if done { 0int } else { 1int }),
    {
        let ghost p0 = pos as int;
        let ghost toks0 = tokens@;
        let (text, p2) = next_token(&chars, pos);
        if text.len() == 0 {
            proof {
                assert(lex_spec(chars@, p0) =~= Seq::<TokenV>::empty());
                assert(views_of(toks0) + lex_spec(chars@, p0) =~= views_of(toks0));
            }
            done = true;
        } else {
            let ghost tv = token_of(text@);
            let s = chars_to_string(&text);
            let t = crate::tokens::Token::from_string(s);
            tokens.push(t);
            pos = p2;
            proof {
                assert(lex_spec(chars@, p0) == seq![tv] + lex_spec(chars@, pos as int));
                assert(views_of(tokens@) =~= views_of(toks0) + seq![t@]);
                assert(views_of(tokens@) + lex_spec(chars@, pos as int) =~= views_of(toks0) + (
                seq![tv] + lex_spec(chars@, pos as int)));
            }
        }
    }
    tokens
}

} // verus!
