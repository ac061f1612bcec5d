//! Lexical categories of the shell: words, reserved words, and the control
//! and redirect operators, together with the character tables that define
//! how each operator is spelled.

use vstd::prelude::*;
use crate::text::str_eq;

verus! {

/// One redirection operator. The recognized spellings are `<`, `>` (or
/// `1>`), `2>`, `>>` (or `1>>`) and `2>>`; the kind decides which standard
/// stream is rebound and whether the target file is opened for appending.
#[derive(Debug, Clone, Copy, PartialEq, Eq, Structural)]
pub enum RedirectOperator {
    RStdin,
    RStdout,
    RStderr,
    AppendStdout,
    AppendStderr,
}

impl RedirectOperator {
    /// True exactly for the two appending forms `>>`/`1>>` and `2>>`.
    pub fn appends(self) -> (r: bool)
        ensures
            r <==> (self is AppendStdout || self is AppendStderr),
    {
        matches!(self, RedirectOperator::AppendStdout | RedirectOperator::AppendStderr)
    }
}

/// Blanks (space and tab) delimit tokens outside quotes.
pub open spec fn is_blank_char(c: char) -> bool {
    c == ' ' || c == '\t'
}

/// Space and tab are the shell's blanks: pure token delimiters while
/// outside of a token.
pub fn is_shell_blank(c: char) -> (r: bool)
    ensures
        r == is_blank_char(c),
{
    c == ' ' || c == '\t'
}

/// One control operator: a token that structures execution flow rather
/// than contributing to a word.
#[derive(Debug, Clone, Copy, PartialEq, Eq, Structural)]
pub enum ControlOperator {
    Newline,
    Ampersand,
    Semicolon,
    Pipe,
    OpenBracket,
    CloseBracket,
    Or,
    And,
    DoubleSemi,
    SemiAmp,
    DoubleSemiAmp,
    PipeAmp,
}

/// A control operator or a redirection operator.
#[derive(Debug, Clone, Copy, PartialEq, Eq, Structural)]
pub enum Operator {
    Control(ControlOperator),
    Redirect(RedirectOperator),
}

/// A word that has a special meaning to the shell. The set is closed and
/// only used to reject such words where a command name is required.
#[derive(Debug, Clone, Copy, PartialEq, Eq, Structural)]
pub enum ReservedWord {
    If,
    Then,
    Time,
}

/// A token that is not an operator: either a reserved word or a free-form
/// string.
#[derive(Debug, Clone, PartialEq, Eq)]
pub enum Word {
    ReservedWord(ReservedWord),
    SimpleWord(String),
}

/// A sequence of characters considered a single unit by the shell: either
/// a word or an operator. Blanks are never part of a token.
#[derive(Debug, Clone, PartialEq, Eq)]
pub enum Token {
    Word(Word),
    Operator(Operator),
}

/// Mathematical model of a [`Word`]: the string content is a `Seq<char>`.
pub enum WordV {
    Reserved(ReservedWord),
    Simple(Seq<char>),
}

/// Mathematical model of a [`Token`].
pub enum TokenV {
    Word(WordV),
    Operator(Operator),
}

impl View for Word {
    type V = WordV;

    open spec fn view(&self) -> WordV {
        match self {
            Word::ReservedWord(r) => WordV::Reserved(*r),
            Word::SimpleWord(s) => WordV::Simple(s@),
        }
    }
}

impl View for Token {
    type V = TokenV;

    open spec fn view(&self) -> TokenV {
        match self {
            Token::Word(w) => TokenV::Word(w@),
            Token::Operator(o) => TokenV::Operator(*o),
        }
    }
}

// ---------------------------------------------------------------------
// Operator spelling tables, character by character.
// ---------------------------------------------------------------------

/// The operator spelled by a single character, if any.
pub open spec fn op_of1(c: char) -> Option<Operator> {
    if c == '\n' {
        Some(Operator::Control(ControlOperator::Newline))
    } else if c == '&' {
        Some(Operator::Control(ControlOperator::Ampersand))
    } else if c == ';' {
        Some(Operator::Control(ControlOperator::Semicolon))
    } else if c == '|' {
        Some(Operator::Control(ControlOperator::Pipe))
    } else if c == '(' {
        Some(Operator::Control(ControlOperator::OpenBracket))
    } else if c == ')' {
        Some(Operator::Control(ControlOperator::CloseBracket))
    } else if c == '<' {
        Some(Operator::Redirect(RedirectOperator::RStdin))
    } else if c == '>' {
        Some(Operator::Redirect(RedirectOperator::RStdout))
    } else {
        None
    }
}

/// The operator spelled by two characters, if any.
pub open spec fn op_of2(c0: char, c1: char) -> Option<Operator> {
    if c0 == '|' && c1 == '|' {
        Some(Operator::Control(ControlOperator::Or))
    } else if c0 == '&' && c1 == '&' {
        Some(Operator::Control(ControlOperator::And))
    } else if c0 == ';' && c1 == ';' {
        Some(Operator::Control(ControlOperator::DoubleSemi))
    } else if c0 == ';' && c1 == '&' {
        Some(Operator::Control(ControlOperator::SemiAmp))
    } else if c0 == '|' && c1 == '&' {
        Some(Operator::Control(ControlOperator::PipeAmp))
    } else if c0 == '1' && c1 == '>' {
        Some(Operator::Redirect(RedirectOperator::RStdout))
    } else if c0 == '2' && c1 == '>' {
        Some(Operator::Redirect(RedirectOperator::RStderr))
    } else if c0 == '>' && c1 == '>' {
        Some(Operator::Redirect(RedirectOperator::AppendStdout))
    } else {
        None
    }
}

/// The operator spelled by three characters, if any.
pub open spec fn op_of3(c0: char, c1: char, c2: char) -> Option<Operator> {
    if c0 == ';' && c1 == ';' && c2 == '&' {
        Some(Operator::Control(ControlOperator::DoubleSemiAmp))
    } else if c0 == '1' && c1 == '>' && c2 == '>' {
        Some(Operator::Redirect(RedirectOperator::AppendStdout))
    } else if c0 == '2' && c1 == '>' && c2 == '>' {
        Some(Operator::Redirect(RedirectOperator::AppendStderr))
    } else {
        None
    }
}

/// The operator spelled by a character sequence, if any.
pub open spec fn op_of(s: Seq<char>) -> Option<Operator> {
    if s.len() == 1 {
        op_of1(s[0])
    } else if s.len() == 2 {
        op_of2(s[0], s[1])
    } else if s.len() == 3 {
        op_of3(s[0], s[1], s[2])
    } else {
        None
    }
}

/// Whether `s` is a prefix of the spelling of some operator. The empty
/// sequence counts; the only proper prefixes that are not operators
/// themselves are the single characters `1` and `2` (prefixes of `1>` and
/// `2>`).
pub open spec fn is_op_prefix(s: Seq<char>) -> bool {
    if s.len() == 0 {
        true
    } else if s.len() == 1 {
        op_of1(s[0]) is Some || s[0] == '1' || s[0] == '2'
    } else {
        op_of(s) is Some
    }
}

/// Executable form of [`op_of`] over a character vector.
pub fn operator_of_chars(v: &Vec<char>) -> (r: Option<Operator>)
    ensures
        r == op_of(v@),
{
    if v.len() == 1 {
        op1(v[0])
    } else if v.len() == 2 {
        op2(v[0], v[1])
    } else if v.len() == 3 {
        op3(v[0], v[1], v[2])
    } else {
        None
    }
}

fn op1(c: char) -> (r: Option<Operator>)
    ensures
        r == op_of1(c),
{
    if c == '\n' {
        Some(Operator::Control(ControlOperator::Newline))
    } else if c == '&' {
        Some(Operator::Control(ControlOperator::Ampersand))
    } else if c == ';' {
        Some(Operator::Control(ControlOperator::Semicolon))
    } else if c == '|' {
        Some(Operator::Control(ControlOperator::Pipe))
    } else if c == '(' {
        Some(Operator::Control(ControlOperator::OpenBracket))
    } else if c == ')' {
        Some(Operator::Control(ControlOperator::CloseBracket))
    } else if c == '<' {
        Some(Operator::Redirect(RedirectOperator::RStdin))
    } else if c == '>' {
        Some(Operator::Redirect(RedirectOperator::RStdout))
    } else {
        None
    }
}

fn op2(c0: char, c1: char) -> (r: Option<Operator>)
    ensures
        r == op_of2(c0, c1),
{
    if c0 == '|' && c1 == '|' {
        Some(Operator::Control(ControlOperator::Or))
    } else if c0 == '&' && c1 == '&' {
        Some(Operator::Control(ControlOperator::And))
    } else if c0 == ';' && c1 == ';' {
        Some(Operator::Control(ControlOperator::DoubleSemi))
    } else if c0 == ';' && c1 == '&' {
        Some(Operator::Control(ControlOperator::SemiAmp))
    } else if c0 == '|' && c1 == '&' {
        Some(Operator::Control(ControlOperator::PipeAmp))
    } else if c0 == '1' && c1 == '>' {
        Some(Operator::Redirect(RedirectOperator::RStdout))
    } else if c0 == '2' && c1 == '>' {
        Some(Operator::Redirect(RedirectOperator::RStderr))
    } else if c0 == '>' && c1 == '>' {
        Some(Operator::Redirect(RedirectOperator::AppendStdout))
    } else {
        None
    }
}

fn op3(c0: char, c1: char, c2: char) -> (r: Option<Operator>)
    ensures
        r == op_of3(c0, c1, c2),
{
    if c0 == ';' && c1 == ';' && c2 == '&' {
        Some(Operator::Control(ControlOperator::DoubleSemiAmp))
    } else if c0 == '1' && c1 == '>' && c2 == '>' {
        Some(Operator::Redirect(RedirectOperator::AppendStdout))
    } else if c0 == '2' && c1 == '>' && c2 == '>' {
        Some(Operator::Redirect(RedirectOperator::AppendStderr))
    } else {
        None
    }
}

/// Executable form of [`is_op_prefix`] over a character vector.
pub fn may_start_with_chars(v: &Vec<char>) -> (r: bool)
    ensures
        r == is_op_prefix(v@),
{
    if v.len() == 0 {
        true
    } else if v.len() == 1 {
        op1(v[0]).is_some() || v[0] == '1' || v[0] == '2'
    } else if v.len() == 2 {
        op2(v[0], v[1]).is_some()
    } else if v.len() == 3 {
        op3(v[0], v[1], v[2]).is_some()
    } else {
        false
    }
}

/// The spelling a control operator is displayed with.
pub open spec fn control_display(c: ControlOperator) -> Seq<char> {
    match c {
        ControlOperator::Newline => "\n"@,
        ControlOperator::Ampersand => "&"@,
        ControlOperator::Semicolon => ";"@,
        ControlOperator::Pipe => "|"@,
        ControlOperator::OpenBracket => "("@,
        ControlOperator::CloseBracket => ")"@,
        ControlOperator::Or => "||"@,
        ControlOperator::And => "&&"@,
        ControlOperator::DoubleSemi => ";;"@,
        ControlOperator::SemiAmp => ";&"@,
        ControlOperator::DoubleSemiAmp => ";;&"@,
        ControlOperator::PipeAmp => "|&"@,
    }
}

/// The spelling a redirect operator is displayed with (the primary one,
/// for the kinds that have two).
pub open spec fn redirect_display(r: RedirectOperator) -> Seq<char> {
    match r {
        RedirectOperator::RStdin => "<"@,
        RedirectOperator::RStdout => ">"@,
        RedirectOperator::RStderr => "2>"@,
        RedirectOperator::AppendStdout => ">>"@,
        RedirectOperator::AppendStderr => "2>>"@,
    }
}

/// The spelling an operator is displayed with.
pub open spec fn op_display(o: Operator) -> Seq<char> {
    match o {
        Operator::Control(c) => control_display(c),
        Operator::Redirect(r) => redirect_display(r),
    }
}

/// The text a token is displayed with: a word's text, or an operator's
/// spelling.
pub open spec fn token_display(t: TokenV) -> Seq<char> {
    match t {
        TokenV::Word(w) => word_text(w),
        TokenV::Operator(o) => op_display(o),
    }
}

impl ControlOperator {
    /// The spelling of this control operator.
    pub fn as_str(self) -> (r: &'static str)
        ensures
            r@ == control_display(self),
    {
        match self {
            ControlOperator::Newline => "\n",
            ControlOperator::Ampersand => "&",
            ControlOperator::Semicolon => ";",
            ControlOperator::Pipe => "|",
            ControlOperator::OpenBracket => "(",
            ControlOperator::CloseBracket => ")",
            ControlOperator::Or => "||",
            ControlOperator::And => "&&",
            ControlOperator::DoubleSemi => ";;",
            ControlOperator::SemiAmp => ";&",
            ControlOperator::DoubleSemiAmp => ";;&",
            ControlOperator::PipeAmp => "|&",
        }
    }
}

impl RedirectOperator {
    /// The spelling of this redirect operator.
    pub fn as_str(self) -> (r: &'static str)
        ensures
            r@ == redirect_display(self),
    {
        match self {
            RedirectOperator::RStdin => "<",
            RedirectOperator::RStdout => ">",
            RedirectOperator::RStderr => "2>",
            RedirectOperator::AppendStdout => ">>",
            RedirectOperator::AppendStderr => "2>>",
        }
    }
}

impl Operator {
    /// The spelling of this operator.
    pub fn as_str(self) -> (r: &'static str)
        ensures
            r@ == op_display(self),
    {
        match self {
            Operator::Control(c) => c.as_str(),
            Operator::Redirect(r) => r.as_str(),
        }
    }

    /// Whether some operator's spelling starts with `value`.
    pub fn may_start_with(value: &str) -> (r: bool)
        ensures
            r == is_op_prefix(value@),
    {
        let v = crate::text::str_chars(value);
        may_start_with_chars(&v)
    }
}

// ---------------------------------------------------------------------
// Word tables.
// ---------------------------------------------------------------------

/// The spelling of a reserved word.
pub open spec fn reserved_str(r: ReservedWord) -> Seq<char> {
    match r {
        ReservedWord::If => "if"@,
        ReservedWord::Then => "then"@,
        ReservedWord::Time => "time"@,
    }
}

/// The reserved word spelled by `s`, if any.
pub open spec fn reserved_of(s: Seq<char>) -> Option<ReservedWord> {
    if s == "if"@ {
        Some(ReservedWord::If)
    } else if s == "then"@ {
        Some(ReservedWord::Then)
    } else if s == "time"@ {
        Some(ReservedWord::Time)
    } else {
        None
    }
}

impl ReservedWord {
    /// Parses a reserved word from its spelling.
    pub fn parse(s: &str) -> (r: Option<ReservedWord>)
        ensures
            r == reserved_of(s@),
    {
        if str_eq(s, "if") {
            Some(ReservedWord::If)
        } else if str_eq(s, "then") {
            Some(ReservedWord::Then)
        } else if str_eq(s, "time") {
            Some(ReservedWord::Time)
        } else {
            None
        }
    }

    /// The spelling of this reserved word.
    pub fn as_str(self) -> (r: &'static str)
        ensures
            r@ == reserved_str(self),
    {
        match self {
            ReservedWord::If => "if",
            ReservedWord::Then => "then",
            ReservedWord::Time => "time",
        }
    }
}

/// The word denoted by a token text: a reserved word if the text spells
/// one, otherwise a free-form simple word.
pub open spec fn word_of(s: Seq<char>) -> WordV {
    match reserved_of(s) {
        Some(r) => WordV::Reserved(r),
        None => WordV::Simple(s),
    }
}

/// The token denoted by a token text: an operator if the text spells one,
/// otherwise a word.
pub open spec fn token_of(s: Seq<char>) -> TokenV {
    match op_of(s) {
        Some(o) => TokenV::Operator(o),
        None => TokenV::Word(word_of(s)),
    }
}

/// The text a word stands for.
pub open spec fn word_text(w: WordV) -> Seq<char> {
    match w {
        WordV::Reserved(r) => reserved_str(r),
        WordV::Simple(s) => s,
    }
}

impl Word {
    /// Builds a word from its text: reserved words are recognized, any
    /// other text makes a simple word.
    pub fn from_string(s: String) -> (w: Word)
        ensures
            w@ == word_of(s@),
    {
        match ReservedWord::parse(s.as_str()) {
            Some(r) => Word::ReservedWord(r),
            None => Word::SimpleWord(s),
        }
    }

    /// The text of this word.
    pub fn as_str(&self) -> (r: &str)
        ensures
            r@ == word_text(self@),
    {
        match self {
            Word::ReservedWord(r) => r.as_str(),
            Word::SimpleWord(s) => s.as_str(),
        }
    }

    /// An equal copy of this word.
    pub fn duplicate(&self) -> (w: Word)
        ensures
            w@ == self@,
    {
        match self {
            Word::ReservedWord(r) => Word::ReservedWord(*r),
            Word::SimpleWord(s) => Word::SimpleWord(s.clone()),
        }
    }
}

impl Token {
    /// Builds a token from its text, as the lexer finishes one: text that
    /// spells an operator becomes an operator token, anything else a word.
    pub fn from_string(s: String) -> (t: Token)
        ensures
            t@ == token_of(s@),
    {
        let v = crate::text::str_chars(s.as_str());
        match operator_of_chars(&v) {
            Some(o) => Token::Operator(o),
            None => Token::Word(Word::from_string(s)),
        }
    }

    /// The text of this token: a word's text, or an operator's spelling.
    pub fn as_str(&self) -> (r: &str)
        ensures
            r@ == token_display(self@),
    {
        match self {
            Token::Word(w) => w.as_str(),
            Token::Operator(o) => o.as_str(),
        }
    }

    /// An equal copy of this token.
    pub fn duplicate(&self) -> (t: Token)
        ensures
            t@ == self@,
    {
        match self {
            Token::Word(w) => Token::Word(w.duplicate()),
            Token::Operator(o) => Token::Operator(*o),
        }
    }

    /// Whether this token delimits a command: `;`, `&`, newline or `&&`.
    pub fn is_command_delimiter(&self) -> (r: bool)
        ensures
            r == token_is_delimiter(self@),
    {
        match self {
            Token::Operator(Operator::Control(c)) => is_delimiter_control(*c),
            _ => false,
        }
    }

    /// Whether this token is a control operator.
    pub fn is_control_operator(&self) -> (r: bool)
        ensures
            r == (self@ matches TokenV::Operator(Operator::Control(_))),
    {
        matches!(self, Token::Operator(Operator::Control(_)))
    }

    /// Whether this token is a redirect operator.
    pub fn is_redirect_operator(&self) -> (r: bool)
        ensures
            r == (self@ matches TokenV::Operator(Operator::Redirect(_))),
    {
        matches!(self, Token::Operator(Operator::Redirect(_)))
    }
}

/// Whether a control operator delimits a command.
pub open spec fn is_delimiter_control_spec(c: ControlOperator) -> bool {
    c is Semicolon || c is Ampersand || c is Newline || c is And
}

/// Whether a token (as modeled) delimits a command.
pub open spec fn token_is_delimiter(t: TokenV) -> bool {
    t matches TokenV::Operator(Operator::Control(c)) && is_delimiter_control_spec(c)
}

/// Executable form of [`is_delimiter_control_spec`].
pub fn is_delimiter_control(c: ControlOperator) -> (r: bool)
    ensures
        r == is_delimiter_control_spec(c),
{
    matches!(
        c,
        ControlOperator::Semicolon
            | ControlOperator::Ampersand
            | ControlOperator::Newline
            | ControlOperator::And
    )
}

} // verus!
