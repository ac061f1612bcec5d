//! The built-in commands and their pure semantics: what each one prints
//! for given inputs. Reading the environment, the file system and the
//! history store, and writing to the actual streams, happen outside; the
//! functions here compute the exact bytes from plain values.

use vstd::prelude::*;
use crate::text::{
    all_digits, chars_to_string, dec_chars, dec_str, digit_val, digit_value, digits_val, is_digit,
    join_spaces, lemma_digits_val_take, pad_left, pad_left_chars, str_chars, str_eq,
};

verus! {

/// A command implemented by the shell itself rather than by an executable
/// program somewhere in the file system. The set is closed:
/// `echo`, `type`, `exit`, `pwd`, `cd`, `history`.
#[derive(Debug, Clone, Copy, PartialEq, Eq, Structural)]
pub enum BuiltinCommand {
    Echo,
    Type,
    Exit,
    PrintWorkingDir,
    ChangeDir,
    History,
}

/// The name of a built-in command.
pub open spec fn builtin_str(b: BuiltinCommand) -> Seq<char> {
    match b {
        BuiltinCommand::Echo => "echo"@,
        BuiltinCommand::Type => "type"@,
        BuiltinCommand::Exit => "exit"@,
        BuiltinCommand::PrintWorkingDir => "pwd"@,
        BuiltinCommand::ChangeDir => "cd"@,
        BuiltinCommand::History => "history"@,
    }
}

/// The built-in command a name denotes, if any.
pub open spec fn builtin_of(s: Seq<char>) -> Option<BuiltinCommand> {
    if s == "echo"@ {
        Some(BuiltinCommand::Echo)
    } else if s == "type"@ {
        Some(BuiltinCommand::Type)
    } else if s == "exit"@ {
        Some(BuiltinCommand::Exit)
    } else if s == "pwd"@ {
        Some(BuiltinCommand::PrintWorkingDir)
    } else if s == "cd"@ {
        Some(BuiltinCommand::ChangeDir)
    } else if s == "history"@ {
        Some(BuiltinCommand::History)
    } else {
        None
    }
}

impl BuiltinCommand {
    /// Parses a built-in command name.
    pub fn parse(s: &str) -> (r: Option<BuiltinCommand>)
        ensures
            r == builtin_of(s@),
    {
        if str_eq(s, "echo") {
            Some(BuiltinCommand::Echo)
        } else if str_eq(s, "type") {
            Some(BuiltinCommand::Type)
        } else if str_eq(s, "exit") {
            Some(BuiltinCommand::Exit)
        } else if str_eq(s, "pwd") {
            Some(BuiltinCommand::PrintWorkingDir)
        } else if str_eq(s, "cd") {
            Some(BuiltinCommand::ChangeDir)
        } else if str_eq(s, "history") {
            Some(BuiltinCommand::History)
        } else {
            None
        }
    }

    /// The name of this built-in command.
    pub fn as_str(self) -> (r: &'static str)
        ensures
            r@ == builtin_str(self),
    {
        match self {
            BuiltinCommand::Echo => "echo",
            BuiltinCommand::Type => "type",
            BuiltinCommand::Exit => "exit",
            BuiltinCommand::PrintWorkingDir => "pwd",
            BuiltinCommand::ChangeDir => "cd",
            BuiltinCommand::History => "history",
        }
    }
}

/// The exit status `cd` reports when the directory cannot be entered.
pub const CD_FAILURE_STATUS: i32 = 2;

/// The content of an optional string.
pub open spec fn opt_view(o: Option<String>) -> Option<Seq<char>> {
    match o {
        Some(p) => Some(p@),
        None => None,
    }
}

// ---------------------------------------------------------------------
// echo
// ---------------------------------------------------------------------

/// What `echo` writes to stdout: the arguments joined by single spaces,
/// followed by a newline.
pub fn echo_output(args: &Vec<String>) -> (r: String)
    ensures
        r@ == join_spaces(args.deep_view()) + "\n"@,
{
    proof {
        reveal_strlit(" ");
        reveal_strlit("\n");
    }
    let mut out = String::new();
    let mut i: usize = 0;
    while i < args.len()
        invariant
            i <= args@.len(),
            out@ == join_spaces(args.deep_view().take(i as int)),
        decreases args@.len() - i,
    {
        proof {
            reveal_strlit(" ");
            assert(" "@ =~= seq![' ']);
            crate::text::lemma_join_spaces_push(
                args.deep_view().take(i as int),
                args.deep_view()[i as int],
            );
            assert(args.deep_view().take(i as int).push(args.deep_view()[i as int])
                =~= args.deep_view().take(i + 1));
            assert(args.deep_view()[i as int] == args@[i as int]@);
        }
        if i > 0 {
            out.append(" ");
        }
        out.append(args[i].as_str());
        i = i + 1;
    }
    proof {
        assert(args.deep_view().take(args@.len() as int) =~= args.deep_view());
    }
    out.append("\n");
    out
}

// ---------------------------------------------------------------------
// type
// ---------------------------------------------------------------------

/// What `type` prints for one name, given what the `PATH` search
/// resolved for it: built-in names win, then the first executable match,
/// otherwise the name is not found (still a success).
pub open spec fn type_line_spec(name: Seq<char>, resolved: Option<Seq<char>>) -> Seq<char> {
    if builtin_of(name) is Some {
        name + " is a shell builtin\n"@
    } else {
        match resolved {
            Some(p) => name + " is "@ + p + "\n"@,
            None => name + ": not found\n"@,
        }
    }
}

/// The line `type` writes for `name`. `resolved` is what the `PATH`
/// search found for the name; it is ignored for built-in names.
pub fn type_line(name: &str, resolved: &Option<String>) -> (r: String)
    ensures
        r@ == type_line_spec(
            name@,
            match resolved {
                Some(p) => Some(p@),
                None => None,
            },
        ),
{
    if BuiltinCommand::parse(name).is_some() {
        String::from_str(name).concat(" is a shell builtin\n")
    } else {
        match resolved {
            Some(p) => String::from_str(name).concat(" is ").concat(p.as_str()).concat("\n"),
            None => String::from_str(name).concat(": not found\n"),
        }
    }
}

// ---------------------------------------------------------------------
// pwd
// ---------------------------------------------------------------------

/// What `pwd` writes: the current working directory followed by a
/// newline.
pub fn pwd_output(cwd: &str) -> (r: String)
    ensures
        r@ == cwd@ + "\n"@,
{
    String::from_str(cwd).concat("\n")
}

// ---------------------------------------------------------------------
// cd
// ---------------------------------------------------------------------

/// The directory `cd` moves to: an absent argument means an empty path
/// (no movement), a first path component `~` is replaced by the home
/// directory, anything else is taken as given.
pub open spec fn cd_target_spec(arg: Option<Seq<char>>, home: Seq<char>) -> Seq<char> {
    match arg {
        None => Seq::empty(),
        Some(p) => {
            if p == "~"@ {
                home
            } else if p.len() >= 2 && p[0] == '~' && p[1] == '/' {
                home + p.skip(1)
            } else {
                p
            }
        },
    }
}

/// The path handed to the operating system for `cd ARG` under the given
/// home directory.
pub fn cd_target(arg: &Option<String>, home: &str) -> (r: String)
    ensures
        r@ == cd_target_spec(
            match arg {
                Some(p) => Some(p@),
                None => None,
            },
            home@,
        ),
{
    match arg {
        None => String::new(),
        Some(p) => {
            if str_eq(p.as_str(), "~") {
                String::from_str(home)
            } else {
                let n = p.as_str().unicode_len();
                if n >= 2 && p.as_str().get_char(0) == '~' && p.as_str().get_char(1) == '/' {
                    let rest = p.as_str().substring_char(1, n);
                    proof {
                        assert(rest@ =~= p@.skip(1));
                    }
                    String::from_str(home).concat(rest)
                } else {
                    p.clone()
                }
            }
        },
    }
}

/// The message `cd` writes to stderr when the directory cannot be
/// entered; it then reports [`CD_FAILURE_STATUS`].
pub fn cd_error_message(path: &str) -> (r: String)
    ensures
        r@ == "cd: "@ + path@ + ": No such file or directory\n"@,
{
    String::from_str("cd: ").concat(path).concat(": No such file or directory\n")
}

// ---------------------------------------------------------------------
// history: the default file and the marker line
// ---------------------------------------------------------------------

/// The file `history -w` and `history -a` use when no file is named: the
/// `HISTFILE` environment value when it is set, else `~/.bash_history`.
pub fn history_default_path(histfile: Option<String>) -> (r: String)
    ensures
        r@ == match opt_view(histfile) {
            Some(h) => h,
            None => "~/.bash_history"@,
        },
{
    match histfile {
        Some(h) => h,
        None => String::from_str("~/.bash_history"),
    }
}

/// A history file that starts with the marker line `#V2` with that
/// single first line stripped; any other content is kept as it is.
pub open spec fn strip_marker_spec(s: Seq<char>) -> Seq<char> {
    if s == "#V2"@ {
        Seq::empty()
    } else if s.len() >= 4 && s.take(4) == "#V2\n"@ {
        s.skip(4)
    } else {
        s
    }
}

/// Strips the `#V2` marker line a history writer may put first, leaving
/// the entries themselves.
pub fn strip_history_marker(content: &str) -> (r: String)
    ensures
        r@ == strip_marker_spec(content@),
{
    if str_eq(content, "#V2") {
        String::new()
    } else {
        let n = content.unicode_len();
        if n >= 4 {
            let head = content.substring_char(0, 4);
            proof {
                assert(head@ =~= content@.take(4));
            }
            if str_eq(head, "#V2\n") {
                let rest = content.substring_char(4, n);
                proof {
                    assert(rest@ =~= content@.skip(4));
                }
                String::from_str(rest)
            } else {
                String::from_str(content)
            }
        } else {
            String::from_str(content)
        }
    }
}

// ---------------------------------------------------------------------
// history: the file format
// ---------------------------------------------------------------------

/// The bytes a history file holds for the given entries: each entry
/// followed by one newline.
pub open spec fn join_lines(entries: Seq<Seq<char>>) -> Seq<char>
    decreases entries.len(),
{
    if entries.len() == 0 {
        Seq::empty()
    } else {
        entries[0] + seq!['\n'] + join_lines(entries.drop_first())
    }
}

proof fn lemma_join_lines_push(entries: Seq<Seq<char>>, x: Seq<char>)
    ensures
        join_lines(entries.push(x)) == join_lines(entries) + x + seq!['\n'],
    decreases entries.len(),
{
    let full = entries.push(x);
    if entries.len() == 0 {
        assert(full[0] == x);
        assert(full.drop_first() =~= Seq::<Seq<char>>::empty());
        assert(join_lines(full.drop_first()) =~= Seq::empty());
        assert(join_lines(full) == full[0] + seq!['\n'] + join_lines(full.drop_first()));
        assert(join_lines(full) =~= join_lines(entries) + x + seq!['\n']);
    } else {
        assert(full.drop_first() =~= entries.drop_first().push(x));
        lemma_join_lines_push(entries.drop_first(), x);
        assert(join_lines(full) == full[0] + seq!['\n'] + join_lines(full.drop_first()));
        assert(join_lines(entries) == entries[0] + seq!['\n'] + join_lines(entries.drop_first()));
        assert(join_lines(full) =~= join_lines(entries) + x + seq!['\n']);
    }
}

/// The file content `history -w` writes for the given entries.
pub fn serialize_history(entries: &Vec<String>) -> (r: String)
    ensures
        r@ == join_lines(entries.deep_view()),
{
    proof {
        reveal_strlit("\n");
        assert("\n"@ =~= seq!['\n']);
    }
    let mut out = String::new();
    let mut i: usize = 0;
    proof {
        assert(entries.deep_view().take(0) =~= Seq::<Seq<char>>::empty());
    }
    while i < entries.len()
        invariant
            i <= entries@.len(),
            out@ == join_lines(entries.deep_view().take(i as int)),
        decreases entries@.len() - i,
    {
        proof {
            reveal_strlit("\n");
            assert("\n"@ =~= seq!['\n']);
            lemma_join_lines_push(entries.deep_view().take(i as int), entries.deep_view()[i as int]);
            assert(entries.deep_view().take(i as int).push(entries.deep_view()[i as int])
                =~= entries.deep_view().take(i + 1));
            assert(entries.deep_view()[i as int] == entries@[i as int]@);
        }
        out.append(entries[i].as_str());
        out.append("\n");
        i = i + 1;
    }
    proof {
        assert(entries.deep_view().take(entries@.len() as int) =~= entries.deep_view());
    }
    out
}

/// The non-empty lines of a file, reading with `cur` the line built so
/// far: what `history -r` takes from a file's content.
pub open spec fn split_lines_ne(s: Seq<char>, cur: Seq<char>) -> Seq<Seq<char>>
    decreases s.len(),
{
    if s.len() == 0 {
        if cur.len() > 0 {
            seq![cur]
        } else {
            Seq::empty()
        }
    } else if s[0] == '\n' {
        (if cur.len() > 0 {
            seq![cur]
        } else {
            Seq::empty()
        }) + split_lines_ne(s.drop_first(), Seq::empty())
    } else {
        split_lines_ne(s.drop_first(), cur.push(s[0]))
    }
}

/// The history entries read from a file's content: the marker line is
/// stripped first, then every non-empty line is one entry.
pub open spec fn history_file_entries(content: Seq<char>) -> Seq<Seq<char>> {
    split_lines_ne(strip_marker_spec(content), Seq::empty())
}

/// Reads a history file's content into entries, as `history -r` adds
/// them.
pub fn parse_history_file(content: &str) -> (r: Vec<String>)
    ensures
        r.deep_view() == history_file_entries(content@),
{
    let stripped = strip_history_marker(content);
    let chars = str_chars(stripped.as_str());
    let ghost s = stripped@;
    let ghost target = split_lines_ne(s, Seq::empty());
    let n = chars.len();
    let mut out: Vec<String> = Vec::new();
    let mut cur: Vec<char> = Vec::new();
    let mut i: usize = 0;
    proof {
        assert(s.skip(0) =~= s);
        assert(out.deep_view() =~= Seq::<Seq<char>>::empty());
    }
    while i < n
        invariant
            i <= n,
            n == chars@.len(),
            chars@ == s,
            target == split_lines_ne(s, Seq::empty()),
            target == out.deep_view() + split_lines_ne(s.skip(i as int), cur@),
        decreases n - i,
    {
        let ghost out0 = out.deep_view();
        let ghost cur0 = cur@;
        proof {
            assert(s.skip(i as int)[0] == s[i as int]);
            assert(s.skip(i as int).drop_first() =~= s.skip(i + 1));
        }
        let c = chars[i];
        if c == '\n' {
            if cur.len() > 0 {
                let finished = chars_to_string(&cur);
                out.push(finished);
                cur = Vec::new();
                proof {
                    assert(out.deep_view() =~= out0.push(cur0));
                    assert(out0 + (seq![cur0] + split_lines_ne(s.skip(i + 1), Seq::empty()))
                        =~= out.deep_view() + split_lines_ne(s.skip(i + 1), Seq::empty()));
                }
            } else {
                proof {
                    assert(cur0 =~= Seq::<char>::empty());
                    assert(split_lines_ne(s.skip(i as int), cur0) == Seq::<Seq<char>>::empty()
                        + split_lines_ne(s.skip(i + 1), Seq::empty()));
                    assert(Seq::<Seq<char>>::empty() + split_lines_ne(s.skip(i + 1), Seq::empty())
                        =~= split_lines_ne(s.skip(i + 1), Seq::empty()));
                }
            }
        } else {
            cur.push(c);
        }
        i = i + 1;
    }
    if cur.len() > 0 {
        let ghost out0 = out.deep_view();
        let ghost cur0 = cur@;
        let finished = chars_to_string(&cur);
        out.push(finished);
        proof {
            assert(s.skip(n as int).len() == 0);
            assert(out.deep_view() =~= out0.push(cur0));
            assert(out0 + seq![cur0] =~= out.deep_view());
        }
    } else {
        proof {
            assert(s.skip(n as int).len() == 0);
            assert(out.deep_view() + split_lines_ne(s.skip(n as int), cur@) =~= out.deep_view());
        }
    }
    out
}

/// Splitting walks through one entry and its newline: the entry joins
/// what was built so far, and the rest is split afresh.
proof fn lemma_split_through_entry(e: Seq<char>, tail: Seq<char>, cur: Seq<char>)
    requires
        forall|i: int| 0 <= i < e.len() ==> e[i] != '\n',
    ensures
        split_lines_ne(e + seq!['\n'] + tail, cur) == (if (cur + e).len() > 0 {
            seq![cur + e]
        } else {
            Seq::<Seq<char>>::empty()
        }) + split_lines_ne(tail, Seq::empty()),
    decreases e.len(),
{
    let s = e + seq!['\n'] + tail;
    if e.len() == 0 {
        assert(s[0] == '\n');
        assert(s.drop_first() =~= tail);
        assert(cur + e =~= cur);
    } else {
        assert(s[0] == e[0]);
        assert(e[0] != '\n');
        assert(s.drop_first() =~= e.drop_first() + seq!['\n'] + tail);
        lemma_split_through_entry(e.drop_first(), tail, cur.push(e[0]));
        assert(cur.push(e[0]) + e.drop_first() =~= cur + e);
        assert((cur + e).len() > 0);
    }
}

/// Whether a sequence of entries can stand in a history file: every
/// entry is a non-empty single line, and the first is not the marker
/// line that a reader strips.
pub open spec fn writable_history(entries: Seq<Seq<char>>) -> bool {
    &&& forall|k: int| 0 <= k < entries.len() ==> (#[trigger] entries[k]).len() > 0
    &&& forall|k: int, i: int|
        0 <= k < entries.len() && 0 <= i < entries[k].len() ==> #[trigger] entries[k][i] != '\n'
    &&& entries.len() > 0 ==> entries[0] != "#V2"@
}

proof fn lemma_split_join(entries: Seq<Seq<char>>)
    requires
        forall|k: int| 0 <= k < entries.len() ==> (#[trigger] entries[k]).len() > 0,
        forall|k: int, i: int|
            0 <= k < entries.len() && 0 <= i < entries[k].len() ==> #[trigger] entries[k][i]
                != '\n',
    ensures
        split_lines_ne(join_lines(entries), Seq::empty()) == entries,
    decreases entries.len(),
{
    if entries.len() == 0 {
        assert(split_lines_ne(join_lines(entries), Seq::empty()) =~= entries);
    } else {
        let e = entries[0];
        let rest = entries.drop_first();
        lemma_split_through_entry(e, join_lines(rest), Seq::empty());
        assert(Seq::<char>::empty() + e =~= e);
        assert forall|k: int| 0 <= k < rest.len() implies (#[trigger] rest[k]).len() > 0 by {
            assert(rest[k] == entries[k + 1]);
        }
        assert forall|k: int, i: int|
            0 <= k < rest.len() && 0 <= i < rest[k].len() implies #[trigger] rest[k][i] != '\n' by {
            assert(rest[k] == entries[k + 1]);
        }
        lemma_split_join(rest);
        assert(split_lines_ne(join_lines(entries), Seq::empty()) =~= seq![e] + rest);
        assert(seq![e] + rest =~= entries);
    }
}

proof fn lemma_join_keeps_marker_out(entries: Seq<Seq<char>>)
    requires
        writable_history(entries),
    ensures
        strip_marker_spec(join_lines(entries)) == join_lines(entries),
{
    reveal_strlit("#V2");
    reveal_strlit("#V2\n");
    let s = join_lines(entries);
    if entries.len() > 0 {
        let e = entries[0];
        assert(s =~= e + seq!['\n'] + join_lines(entries.drop_first()));
        assert(s.len() > e.len());
        assert(s[e.len() as int] == '\n');
        if s == "#V2"@ {
            // The content always ends in a newline right after the first
            // entry, which holds none; "#V2" ends otherwise.
            assert(s[e.len() as int] == '\n');
            if e.len() < 3 {
                assert("#V2"@[e.len() as int] != '\n');
            } else {
                assert(s[2] == e[2]);
                assert(e[2] != '\n');
                assert(s.len() == 3 ==> e.len() <= 2);
            }
            assert(false);
        }
        if s.len() >= 4 && s.take(4) == "#V2\n"@ {
            assert(s.take(4)[3] == '\n');
            if e.len() > 3 {
                assert(s[3] == e[3]);
                assert(e[3] != '\n');
            } else if e.len() < 3 {
                assert(s[e.len() as int] == '\n');
                assert(s.take(4)[e.len() as int] != '\n');
            } else {
                assert(e =~= s.take(3));
                assert(e == "#V2"@);
            }
            assert(false);
        }
    } else {
        assert(s.len() == 0);
    }
}

/// History round-trip: what `history -w` writes, `history -r` reads back
/// unchanged — for any entries that can stand in a history file (each a
/// non-empty single line, the first not the reader's marker line).
pub proof fn lemma_history_round_trip(entries: Seq<Seq<char>>)
    requires
        writable_history(entries),
    ensures
        history_file_entries(join_lines(entries)) == entries,
{
    lemma_join_keeps_marker_out(entries);
    lemma_split_join(entries);
}

// ---------------------------------------------------------------------
// history: how many entries to show
// ---------------------------------------------------------------------

/// How much of the history a plain `history [N]` shows.
#[derive(Debug, Clone, Copy, PartialEq, Eq, Structural)]
pub enum HistoryCount {
    /// The whole history: no count argument, or a negative one.
    All,
    /// The last `N` entries.
    Last(usize),
}

/// A count argument without its optional leading sign.
pub open spec fn count_body(s: Seq<char>) -> Seq<char> {
    if s.len() >= 1 && (s[0] == '+' || s[0] == '-') {
        s.skip(1)
    } else {
        s
    }
}

/// The count a `history` argument denotes: digits with an optional sign,
/// where a negative count means the whole history; anything else — no
/// digits, a stray character, or a value beyond the machine's range — is
/// not numeric.
pub open spec fn count_of(s: Seq<char>) -> Option<HistoryCount> {
    if count_body(s).len() == 0 || !all_digits(count_body(s)) {
        None
    } else if digits_val(count_body(s)) > usize::MAX as nat {
        None
    } else if s[0] == '-' {
        Some(HistoryCount::All)
    } else {
        Some(HistoryCount::Last(digits_val(count_body(s)) as usize))
    }
}

/// Parses the count argument of `history`.
pub fn parse_count(s: &str) -> (r: Option<HistoryCount>)
    ensures
        r == count_of(s@),
{
    let n = s.unicode_len();
    let mut start: usize = 0;
    let mut neg = false;
    if n >= 1 {
        let c0 = s.get_char(0);
        if c0 == '+' {
            start = 1;
        } else if c0 == '-' {
            start = 1;
            neg = true;
        }
    }
    let ghost body = count_body(s@);
    proof {
        assert(body =~= s@.skip(start as int));
    }
    if start >= n {
        return None;
    }
    let mut acc: usize = 0;
    let mut i: usize = start;
    while i < n
        invariant
            start <= i <= n,
            n == s@.len(),
            start < n,
            start <= 1,
            body == count_body(s@),
            body == s@.skip(start as int),
            body.len() == n - start,
            all_digits(body.take(i - start)),
            acc as nat == digits_val(body.take(i - start)),
            neg ==> s@.len() >= 1 && s@[0] == '-',
            !neg && start == 1 ==> s@[0] == '+',
            start == 0 ==> !(s@[0] == '+' || s@[0] == '-'),
        decreases n - i,
    {
        let ghost k = i - start;
        let c = s.get_char(i);
        proof {
            assert(body[k as int] == s@[i as int]);
        }
        match digit_value(c) {
            None => {
                proof {
                    assert(!is_digit(body[k as int]));
                    assert(!all_digits(body));
                }
                return None;
            },
            Some(d) => {
                proof {
                    assert(body.take(k + 1).drop_last() =~= body.take(k as int));
                    assert(body.take(k + 1).last() == body[k as int]);
                    assert(digits_val(body.take(k + 1)) == digits_val(body.take(k as int)) * 10
                        + digit_val(body[k as int]));
                    assert(all_digits(body.take(k + 1)));
                }
                if acc > usize::MAX / 10 {
                    proof {
                        let prev = digits_val(body.take(k as int));
                        let umax = usize::MAX as nat;
                        assert(prev * 10 > umax) by (nonlinear_arith)
                            requires
                                prev > umax / 10,
                        ;
                        lemma_digits_val_take(body, k + 1);
                    }
                    return None;
                }
                proof {
                    let prev = acc as nat;
                    let umax = usize::MAX as nat;
                    assert(prev * 10 <= umax - (umax % 10)) by (nonlinear_arith)
                        requires
                            prev <= umax / 10,
                    ;
                }
                let t = acc * 10;
                if d > usize::MAX - t {
                    proof {
                        lemma_digits_val_take(body, k + 1);
                    }
                    return None;
                }
                acc = t + d;
                i = i + 1;
            },
        }
    }
    proof {
        assert(body.take(n - start) =~= body);
    }
    if neg {
        Some(HistoryCount::All)
    } else {
        Some(HistoryCount::Last(acc))
    }
}

// ---------------------------------------------------------------------
// history: the numbered listing
// ---------------------------------------------------------------------

/// How many entries `history` shows for a count argument: the count,
/// clamped to what the history holds.
pub open spec fn shown_count(len: nat, count: nat) -> nat {
    if count < len {
        count
    } else {
        len
    }
}

/// One line of the listing: the entry's 1-based number right-aligned in
/// a five-column field, a space, the entry, and a newline.
pub open spec fn history_line(num: nat, entry: Seq<char>) -> Seq<char> {
    pad_left(dec_str(num), 5) + seq![' '] + entry + seq!['\n']
}

/// The lines `history` prints for the given entries and count: the last
/// `shown_count` entries, numbered so that the last line carries number
/// `len`.
pub open spec fn history_lines(entries: Seq<Seq<char>>, count: nat) -> Seq<Seq<char>> {
    let m = shown_count(entries.len(), count);
    Seq::new(
        m,
        |i: int| history_line(
            (entries.len() - m + i + 1) as nat,
            entries[entries.len() - m + i],
        ),
    )
}

/// History numbering: the listing shows `min(count, len)` lines; line
/// `i` carries number `len - shown + i + 1`, so the numbers form a
/// contiguous range that ends exactly at `len`.
pub proof fn lemma_history_numbering(entries: Seq<Seq<char>>, count: nat)
    ensures
        ({
            let m = shown_count(entries.len(), count);
            let lines = history_lines(entries, count);
            &&& m <= entries.len()
            &&& lines.len() == m
            &&& forall|i: int|
                0 <= i < m ==> #[trigger] lines[i] == history_line(
                    (entries.len() - m + i + 1) as nat,
                    entries[entries.len() - m + i],
                )
            &&& m > 0 ==> entries.len() - m + (m - 1) + 1 == entries.len()
        }),
{
}

/// The numbered listing `history [N]` writes, one line per shown entry.
pub fn history_listing(entries: &Vec<String>, count: usize) -> (lines: Vec<String>)
    ensures
        lines.deep_view() == history_lines(entries.deep_view(), count as nat),
{
    let len = entries.len();
    let m = if count < len {
        count
    } else {
        len
    };
    let first = len - m;
    let ghost target = history_lines(entries.deep_view(), count as nat);
    proof {
        assert(entries.deep_view().len() == len);
        assert(target.len() == m);
    }
    let mut lines: Vec<String> = Vec::new();
    let mut i: usize = 0;
    while i < m
        invariant
            i <= m,
            m <= len,
            first == len - m,
            len == entries@.len(),
            entries.deep_view().len() == len,
            target == history_lines(entries.deep_view(), count as nat),
            target.len() == m,
            lines.deep_view().len() == i,
            forall|j: int| 0 <= j < i ==> #[trigger] lines.deep_view()[j] == target[j],
        decreases m - i,
    {
        let num = first + i + 1;
        let mut line = pad_left_chars(dec_chars(num), 5);
        line.push(' ');
        let mut entry_chars = str_chars(entries[first + i].as_str());
        line.append(&mut entry_chars);
        line.push('\n');
        proof {
            assert(entries.deep_view()[first + i] == entries@[first + i as int]@);
            assert(line@ =~= pad_left(dec_str(num as nat), 5) + seq![' ']
                + entries.deep_view()[first + i] + seq!['\n']);
        }
        let ghost lines0 = lines.deep_view();
        let rendered = chars_to_string(&line);
        lines.push(rendered);
        i = i + 1;
        proof {
            assert(lines.deep_view() =~= lines0.push(line@));
            assert(lines.deep_view()[i - 1] == line@);
        }
    }
    proof {
        assert(lines.deep_view() =~= target);
    }
    lines
}

// ---------------------------------------------------------------------
// history: the whole invocation
// ---------------------------------------------------------------------

/// What a `history` invocation asks for, decided from its arguments
/// alone.
#[derive(Debug, Clone, PartialEq, Eq)]
pub enum HistoryAction {
    /// Print the last entries per the count.
    Show(HistoryCount),
    /// `-w`: save the in-memory history to the named file, or to the
    /// default file.
    Save(Option<String>),
    /// `-a`: append the in-memory history to the named file, or to the
    /// default file.
    Append(Option<String>),
    /// `-r`: read each named file into the in-memory history.
    Load(Vec<String>),
    /// `-r` without a file argument: an error.
    LoadMissingArg,
    /// A count argument that is not numeric: an error naming it.
    NotNumeric(String),
}

/// Mathematical model of a [`HistoryAction`].
pub enum HistoryActionV {
    Show(HistoryCount),
    Save(Option<Seq<char>>),
    Append(Option<Seq<char>>),
    Load(Seq<Seq<char>>),
    LoadMissingArg,
    NotNumeric(Seq<char>),
}

impl View for HistoryAction {
    type V = HistoryActionV;

    open spec fn view(&self) -> HistoryActionV {
        match self {
            HistoryAction::Show(c) => HistoryActionV::Show(*c),
            HistoryAction::Save(f) => HistoryActionV::Save(opt_view(*f)),
            HistoryAction::Append(f) => HistoryActionV::Append(opt_view(*f)),
            HistoryAction::Load(fs) => HistoryActionV::Load(fs.deep_view()),
            HistoryAction::LoadMissingArg => HistoryActionV::LoadMissingArg,
            HistoryAction::NotNumeric(s) => HistoryActionV::NotNumeric(s@),
        }
    }
}

/// What `history ARGS` does: `-w`/`-a` save or append with an optional
/// file, `-r` loads the named files and demands at least one, a numeric
/// argument selects how much to show, and anything else is rejected as
/// non-numeric.
pub open spec fn parse_history_spec(args: Seq<Seq<char>>) -> HistoryActionV {
    if args.len() == 0 {
        HistoryActionV::Show(HistoryCount::All)
    } else if args[0] == "-w"@ {
        HistoryActionV::Save(
            if args.len() >= 2 {
                Some(args[1])
            } else {
                None
            },
        )
    } else if args[0] == "-a"@ {
        HistoryActionV::Append(
            if args.len() >= 2 {
                Some(args[1])
            } else {
                None
            },
        )
    } else if args[0] == "-r"@ {
        if args.len() == 1 {
            HistoryActionV::LoadMissingArg
        } else {
            HistoryActionV::Load(args.skip(1))
        }
    } else {
        match count_of(args[0]) {
            Some(c) => HistoryActionV::Show(c),
            None => HistoryActionV::NotNumeric(args[0]),
        }
    }
}

/// Decides what a `history` invocation asks for.
pub fn parse_history_invocation(args: &Vec<String>) -> (r: HistoryAction)
    ensures
        r@ == parse_history_spec(args.deep_view()),
{
    let ghost av = args.deep_view();
    if args.len() == 0 {
        return HistoryAction::Show(HistoryCount::All);
    }
    proof {
        assert(av[0] == args@[0]@);
    }
    if str_eq(args[0].as_str(), "-w") {
        let file = if args.len() >= 2 {
            proof {
                assert(av[1] == args@[1]@);
            }
            Some(args[1].clone())
        } else {
            None
        };
        HistoryAction::Save(file)
    } else if str_eq(args[0].as_str(), "-a") {
        let file = if args.len() >= 2 {
            proof {
                assert(av[1] == args@[1]@);
            }
            Some(args[1].clone())
        } else {
            None
        };
        HistoryAction::Append(file)
    } else if str_eq(args[0].as_str(), "-r") {
        if args.len() == 1 {
            HistoryAction::LoadMissingArg
        } else {
            let mut files: Vec<String> = Vec::new();
            let mut i: usize = 1;
            while i < args.len()
                invariant
                    1 <= i <= args@.len(),
                    av == args.deep_view(),
                    av.len() == args@.len(),
                    files.deep_view() =~= av.subrange(1, i as int),
                decreases args@.len() - i,
            {
                proof {
                    assert(av[i as int] == args@[i as int]@);
                }
                let ghost files0 = files.deep_view();
                files.push(args[i].clone());
                i = i + 1;
                proof {
                    assert(files.deep_view() =~= files0.push(av[i - 1]));
                    assert(files.deep_view() =~= av.subrange(1, i as int));
                }
            }
            proof {
                assert(av.subrange(1, av.len() as int) =~= av.skip(1));
            }
            HistoryAction::Load(files)
        }
    } else {
        match parse_count(args[0].as_str()) {
            Some(c) => HistoryAction::Show(c),
            None => HistoryAction::NotNumeric(args[0].clone()),
        }
    }
}

/// The message `history` writes for a non-numeric count argument.
pub fn numeric_required_message(arg: &str) -> (r: String)
    ensures
        r@ == "history: "@ + arg@ + ": numeric argument required\n"@,
{
    String::from_str("history: ").concat(arg).concat(": numeric argument required\n")
}

/// The message `history -r` writes when no file argument follows.
pub fn expected_argument_message() -> (r: String)
    ensures
        r@ == "expected argument\n"@,
{
    String::from_str("expected argument\n")
}

} // verus!
