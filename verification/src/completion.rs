//! Command-name completion: a sorted list of known command names, and
//! the choice of candidates for a line prefix. Gathering the names (the
//! built-ins are known here; executables come from reading the `PATH`
//! directories) and editing the line buffer happen outside this crate.

use vstd::prelude::*;
use crate::text::str_chars;

verus! {

/// Lexicographic order on character sequences, by scalar value.
pub open spec fn lex_le(a: Seq<char>, b: Seq<char>) -> bool
    decreases a.len(),
{
    if a.len() == 0 {
        true
    } else if b.len() == 0 {
        false
    } else if (a[0] as u32) == (b[0] as u32) {
        lex_le(a.drop_first(), b.drop_first())
    } else {
        (a[0] as u32) < (b[0] as u32)
    }
}

/// The order relates every value to itself.
pub proof fn lemma_lex_le_refl(a: Seq<char>)
    ensures
        lex_le(a, a),
    decreases a.len(),
{
    if a.len() > 0 {
        lemma_lex_le_refl(a.drop_first());
    }
}

/// Any two values are related one way or the other.
pub proof fn lemma_lex_le_total(a: Seq<char>, b: Seq<char>)
    ensures
        lex_le(a, b) || lex_le(b, a),
    decreases a.len(),
{
    if a.len() > 0 && b.len() > 0 && (a[0] as u32) == (b[0] as u32) {
        lemma_lex_le_total(a.drop_first(), b.drop_first());
    }
}

/// The order is transitive.
pub proof fn lemma_lex_le_trans(a: Seq<char>, b: Seq<char>, c: Seq<char>)
    requires
        lex_le(a, b),
        lex_le(b, c),
    ensures
        lex_le(a, c),
    decreases a.len(),
{
    if a.len() > 0 {
        if (a[0] as u32) == (b[0] as u32) && (b[0] as u32) == (c[0] as u32) {
            lemma_lex_le_trans(a.drop_first(), b.drop_first(), c.drop_first());
        }
    }
}

/// Whether `cs` is sorted by [`lex_le`].
pub open spec fn sorted_strs(cs: Seq<Seq<char>>) -> bool {
    forall|i: int, j: int| 0 <= i < j < cs.len() ==> lex_le(#[trigger] cs[i], #[trigger] cs[j])
}

/// Compares two strings in the order of [`lex_le`].
pub fn str_le(a: &str, b: &str) -> (r: bool)
    ensures
        r == lex_le(a@, b@),
{
    let av = str_chars(a);
    let bv = str_chars(b);
    let mut i: usize = 0;
    proof {
        assert(a@.skip(0) =~= a@);
        assert(b@.skip(0) =~= b@);
    }
    loop
        invariant
            i <= av@.len(),
            i <= bv@.len(),
            av@ == a@,
            bv@ == b@,
            lex_le(a@, b@) == lex_le(a@.skip(i as int), b@.skip(i as int)),
        decreases av@.len() - i,
    {
        if i >= av.len() {
            proof {
                assert(a@.skip(i as int).len() == 0);
            }
            return true;
        }
        if i >= bv.len() {
            proof {
                assert(b@.skip(i as int).len() == 0);
                assert(a@.skip(i as int).len() > 0);
            }
            return false;
        }
        let ca = av[i];
        let cb = bv[i];
        proof {
            assert(a@.skip(i as int)[0] == a@[i as int]);
            assert(b@.skip(i as int)[0] == b@[i as int]);
            assert(a@.skip(i as int).drop_first() =~= a@.skip(i + 1));
            assert(b@.skip(i as int).drop_first() =~= b@.skip(i + 1));
        }
        if (ca as u32) == (cb as u32) {
            i = i + 1;
        } else {
            return (ca as u32) < (cb as u32);
        }
    }
}

/// Whether `prefix` starts `s`.
pub fn str_starts_with(s: &str, prefix: &str) -> (r: bool)
    ensures
        r == prefix@.is_prefix_of(s@),
{
    let lp = prefix.unicode_len();
    let ls = s.unicode_len();
    if lp > ls {
        return false;
    }
    let mut i: usize = 0;
    while i < lp
        invariant
            i <= lp,
            lp == prefix@.len(),
            ls == s@.len(),
            lp <= ls,
            forall|j: int| 0 <= j < i ==> prefix@[j] == s@[j],
        decreases lp - i,
    {
        if prefix.get_char(i) != s.get_char(i) {
            proof {
                assert(s@.subrange(0, lp as int)[i as int] == s@[i as int]);
                assert(!(prefix@ =~= s@.subrange(0, lp as int)));
            }
            return false;
        }
        i = i + 1;
    }
    proof {
        assert(prefix@ =~= s@.subrange(0, lp as int));
    }
    true
}

/// The names among `cs` that start with `line`, in the order of `cs`.
pub open spec fn prefix_matches(cs: Seq<Seq<char>>, line: Seq<char>) -> Seq<Seq<char>>
    decreases cs.len(),
{
    if cs.len() == 0 {
        Seq::empty()
    } else if line.is_prefix_of(cs[0]) {
        seq![cs[0]] + prefix_matches(cs.drop_first(), line)
    } else {
        prefix_matches(cs.drop_first(), line)
    }
}

/// The candidates offered for `line`: every known name that starts with
/// it; a single candidate gets a trailing space, the word being
/// complete.
pub open spec fn completion_result(cs: Seq<Seq<char>>, line: Seq<char>) -> Seq<Seq<char>> {
    let m = prefix_matches(cs, line);
    if m.len() == 1 {
        seq![m[0] + seq![' ']]
    } else {
        m
    }
}

/// Filtering keeps the order: the matches of a sorted name list are
/// sorted, and every match is one of the names.
pub proof fn lemma_prefix_matches_sorted(cs: Seq<Seq<char>>, line: Seq<char>)
    requires
        sorted_strs(cs),
    ensures
        sorted_strs(prefix_matches(cs, line)),
        forall|x: Seq<char>| #[trigger] prefix_matches(cs, line).contains(x) ==> cs.contains(x),
    decreases cs.len(),
{
    if cs.len() > 0 {
        let rest = cs.drop_first();
        assert forall|i: int, j: int| 0 <= i < j < rest.len() implies lex_le(
            #[trigger] rest[i],
            #[trigger] rest[j],
        ) by {
            assert(rest[i] == cs[i + 1]);
            assert(rest[j] == cs[j + 1]);
        }
        lemma_prefix_matches_sorted(rest, line);
        let mr = prefix_matches(rest, line);
        assert forall|x: Seq<char>| #[trigger] prefix_matches(cs, line).contains(x) implies cs
            .contains(x) by {
            let m = prefix_matches(cs, line);
            let k = choose|k: int| 0 <= k < m.len() && m[k] == x;
            if line.is_prefix_of(cs[0]) && k == 0 {
                assert(cs[0] == x);
            } else {
                let k2 = if line.is_prefix_of(cs[0]) {
                    k - 1
                } else {
                    k
                };
                assert(mr[k2] == x);
                assert(mr.contains(x));
                assert(rest.contains(x));
                let k3 = choose|k3: int| 0 <= k3 < rest.len() && rest[k3] == x;
                assert(cs[k3 + 1] == x);
            }
        }
        if line.is_prefix_of(cs[0]) {
            let m = prefix_matches(cs, line);
            assert forall|i: int, j: int| 0 <= i < j < m.len() implies lex_le(
                #[trigger] m[i],
                #[trigger] m[j],
            ) by {
                if i == 0 {
                    assert(m[j] == mr[j - 1]);
                    assert(mr.contains(mr[j - 1]));
                    assert(rest.contains(mr[j - 1]));
                    let k3 = choose|k3: int| 0 <= k3 < rest.len() && rest[k3] == mr[j - 1];
                    assert(cs[k3 + 1] == m[j]);
                    assert(lex_le(cs[0], cs[k3 + 1]));
                } else {
                    assert(m[i] == mr[i - 1]);
                    assert(m[j] == mr[j - 1]);
                }
            }
        }
    }
}

/// The command-name completer: the names it knows, kept sorted.
#[derive(Debug)]
pub struct MyCompleter {
    pub commands: Vec<String>,
}

impl MyCompleter {
    /// Whether the name list is sorted, as every constructor leaves it.
    pub open spec fn wf(&self) -> bool {
        sorted_strs(self.commands.deep_view())
    }

    /// A completer that knows no names yet.
    pub fn new() -> (c: MyCompleter)
        ensures
            c.wf(),
            c.commands@.len() == 0,
    {
        let c = MyCompleter { commands: Vec::new() };
        proof {
            assert(c.commands.deep_view().len() == 0);
        }
        c
    }

    /// A completer that knows the built-in command names.
    pub fn default() -> (c: MyCompleter)
        ensures
            c.wf(),
            c.commands.deep_view() =~= seq![
                "cd"@,
                "echo"@,
                "exit"@,
                "history"@,
                "pwd"@,
                "type"@,
            ],
    {
        let mut commands: Vec<String> = Vec::new();
        commands.push(String::from_str("cd"));
        commands.push(String::from_str("echo"));
        commands.push(String::from_str("exit"));
        commands.push(String::from_str("history"));
        commands.push(String::from_str("pwd"));
        commands.push(String::from_str("type"));
        let c = MyCompleter { commands };
        proof {
            let d = c.commands.deep_view();
            assert(d =~= seq!["cd"@, "echo"@, "exit"@, "history"@, "pwd"@, "type"@]);
            reveal_strlit("cd");
            reveal_strlit("echo");
            reveal_strlit("exit");
            reveal_strlit("history");
            reveal_strlit("pwd");
            reveal_strlit("type");
            assert(lex_le(d[0], d[1])) by {
                reveal_with_fuel(lex_le, 5);
            }
            assert(lex_le(d[1], d[2])) by {
                reveal_with_fuel(lex_le, 5);
            }
            assert(lex_le(d[2], d[3])) by {
                reveal_with_fuel(lex_le, 5);
            }
            assert(lex_le(d[3], d[4])) by {
                reveal_with_fuel(lex_le, 5);
            }
            assert(lex_le(d[4], d[5])) by {
                reveal_with_fuel(lex_le, 5);
            }
            lemma_adjacent_sorted(d);
        }
        c
    }

    /// Adds one name at its sorted position.
    pub fn add_command(&mut self, cmd: String)
        requires
            old(self).wf(),
        ensures
            final(self).wf(),
            exists|p: int|
                0 <= p <= old(self).commands@.len() && final(self).commands.deep_view()
                    == old(self).commands.deep_view().insert(p, cmd@),
    {
        let ghost d0 = self.commands.deep_view();
        let n = self.commands.len();
        let mut p: usize = 0;
        while p < n && str_le(self.commands[p].as_str(), cmd.as_str())
            invariant
                p <= n,
                n == self.commands@.len(),
                *self == *old(self),
                d0 == self.commands.deep_view(),
                forall|i: int| 0 <= i < p ==> lex_le(#[trigger] d0[i], cmd@),
            decreases n - p,
        {
            proof {
                assert(d0[p as int] == self.commands@[p as int]@);
            }
            p = p + 1;
        }
        proof {
            assert(p < n ==> d0[p as int] == self.commands@[p as int]@);
        }
        self.commands.insert(p, cmd);
        proof {
            let d1 = self.commands.deep_view();
            d0.insert_ensures(p as int, cmd@);
            assert forall|k: int| 0 <= k < d1.len() implies d1[k] == d0.insert(p as int, cmd@)[k] by {
                assert(d1[k] == self.commands@[k]@);
            }
            assert(d1 =~= d0.insert(p as int, cmd@));
            assert forall|i: int, j: int| 0 <= i < j < d1.len() implies lex_le(
                #[trigger] d1[i],
                #[trigger] d1[j],
            ) by {
                let pi = p as int;
                if i < pi && j < pi {
                    assert(d1[i] == d0[i] && d1[j] == d0[j]);
                } else if i < pi && j == pi {
                    assert(d1[i] == d0[i] && d1[j] == cmd@);
                } else if i < pi && j > pi {
                    assert(d1[i] == d0[i] && d1[j] == d0[j - 1]);
                    if j - 1 >= pi {
                        if i < j - 1 {
                            assert(lex_le(d0[i], d0[j - 1]));
                        } else {
                            lemma_lex_le_refl(d0[i]);
                        }
                    }
                } else if i == pi {
                    assert(d1[i] == cmd@ && d1[j] == d0[j - 1]);
                    if p < n {
                        lemma_lex_le_total(d0[pi], cmd@);
                        assert(lex_le(cmd@, d0[pi]));
                        if j - 1 > pi {
                            assert(lex_le(d0[pi], d0[j - 1]));
                            lemma_lex_le_trans(cmd@, d0[pi], d0[j - 1]);
                        }
                    }
                } else {
                    assert(d1[i] == d0[i - 1] && d1[j] == d0[j - 1]);
                }
            }
        }
    }

    /// The candidates for `line`: the known names that start with it, in
    /// sorted order, with a trailing space when only one remains. The
    /// replacement always starts at position zero of the line.
    pub fn complete(&self, line: &str, pos: usize) -> (r: (usize, Vec<String>))
        ensures
            r.0 == 0,
            r.1.deep_view() == completion_result(self.commands.deep_view(), line@),
    {
        let _ = pos;
        let ghost cs = self.commands.deep_view();
        let n = self.commands.len();
        let mut out: Vec<String> = Vec::new();
        let mut i: usize = 0;
        proof {
            assert(cs.skip(0) =~= cs);
            assert(out.deep_view() =~= Seq::<Seq<char>>::empty());
        }
        while i < n
            invariant
                i <= n,
                n == self.commands@.len(),
                cs == self.commands.deep_view(),
                prefix_matches(cs, line@) == out.deep_view() + prefix_matches(
                    cs.skip(i as int),
                    line@,
                ),
            decreases n - i,
        {
            let ghost out0 = out.deep_view();
            proof {
                assert(cs.skip(i as int)[0] == cs[i as int]);
                assert(cs.skip(i as int).drop_first() =~= cs.skip(i + 1));
                assert(cs[i as int] == self.commands@[i as int]@);
            }
            if str_starts_with(self.commands[i].as_str(), line) {
                out.push(self.commands[i].clone());
                proof {
                    assert(out.deep_view() =~= out0.push(cs[i as int]));
                    assert(out0 + (seq![cs[i as int]] + prefix_matches(cs.skip(i + 1), line@))
                        =~= out.deep_view() + prefix_matches(cs.skip(i + 1), line@));
                }
            }
            i = i + 1;
        }
        proof {
            assert(cs.skip(n as int).len() == 0);
            assert(out.deep_view() + prefix_matches(cs.skip(n as int), line@) =~= out.deep_view());
        }
        if out.len() == 1 {
            let ghost m = prefix_matches(cs, line@);
            let single = match out.pop() {
                Some(s) => s,
                None => String::new(),
            };
            proof {
                reveal_strlit(" ");
                assert(" "@ =~= seq![' ']);
                assert(single@ == m[0]);
            }
            let with_space = single.concat(" ");
            let mut only: Vec<String> = Vec::new();
            only.push(with_space);
            proof {
                assert(only.deep_view() =~= seq![m[0] + seq![' ']]);
            }
            return (0, only);
        }
        (0, out)
    }
}

/// A list whose every adjacent pair is ordered is sorted throughout.
pub proof fn lemma_adjacent_sorted(cs: Seq<Seq<char>>)
    requires
        forall|i: int| 0 <= i < cs.len() - 1 ==> lex_le(#[trigger] cs[i], cs[i + 1]),
    ensures
        sorted_strs(cs),
{
    assert forall|i: int, j: int| 0 <= i < j < cs.len() implies lex_le(
        #[trigger] cs[i],
        #[trigger] cs[j],
    ) by {
        lemma_le_span(cs, i, j);
    }
}

proof fn lemma_le_span(cs: Seq<Seq<char>>, i: int, j: int)
    requires
        forall|k: int| 0 <= k < cs.len() - 1 ==> lex_le(#[trigger] cs[k], cs[k + 1]),
        0 <= i <= j < cs.len(),
    ensures
        lex_le(cs[i], cs[j]),
    decreases j - i,
{
    if i == j {
        lemma_lex_le_refl(cs[i]);
    } else {
        lemma_le_span(cs, i, j - 1);
        lemma_lex_le_trans(cs[i], cs[j - 1], cs[j]);
    }
}

} // verus!
