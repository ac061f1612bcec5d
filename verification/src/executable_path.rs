//! `PATH`-based executable resolution: splitting the `PATH` value on
//! colons, forming one candidate path per entry, and choosing the first
//! candidate whose file is executable. Whether a file is a regular file
//! with the owner-execute bit set is read from the file system outside
//! this crate; the choice among the candidates is made here, from those
//! answers as plain values, so that the `type` built-in and the executor
//! provably agree on it.

use vstd::prelude::*;
use crate::builtin_commands::{builtin_of, type_line_spec};
use crate::text::{chars_to_string, str_chars};

verus! {

/// The segments of `s` split on `:`, reading at `i` with `cur` the
/// segment built so far. Every string has at least one segment; a
/// trailing `:` yields a final empty segment.
pub open spec fn split_colon_from(s: Seq<char>, i: int, cur: Seq<char>) -> Seq<Seq<char>>
    decreases s.len() - i,
{
    if i >= s.len() {
        seq![cur]
    } else if s[i] == ':' {
        seq![cur] + split_colon_from(s, i + 1, Seq::empty())
    } else {
        split_colon_from(s, i + 1, cur.push(s[i]))
    }
}

/// The segments of `s` split on `:`.
pub open spec fn split_colon(s: Seq<char>) -> Seq<Seq<char>> {
    split_colon_from(s, 0, Seq::empty())
}

/// Splits a string on `:`, as the shell splits the `PATH` value.
pub fn split_path(s: &str) -> (r: Vec<String>)
    ensures
        r.deep_view() == split_colon(s@),
{
    let chars = str_chars(s);
    let n = chars.len();
    let ghost target = split_colon(s@);
    let mut segments: Vec<String> = Vec::new();
    let mut cur: Vec<char> = Vec::new();
    let mut i: usize = 0;
    proof {
        assert(segments.deep_view() =~= Seq::<Seq<char>>::empty());
    }
    while i < n
        invariant
            i <= n,
            n == chars@.len(),
            chars@ == s@,
            target == split_colon(s@),
            target == segments.deep_view() + split_colon_from(s@, i as int, cur@),
        decreases n - i,
    {
        let ghost segs0 = segments.deep_view();
        let ghost cur0 = cur@;
        let ghost i0 = i as int;
        let c = chars[i];
        if c == ':' {
            let finished = chars_to_string(&cur);
            segments.push(finished);
            cur = Vec::new();
            proof {
                assert(segments.deep_view() =~= segs0.push(cur0));
                assert(segs0 + split_colon_from(s@, i0, cur0) =~= segments.deep_view()
                    + split_colon_from(s@, i0 + 1, Seq::empty()));
            }
        } else {
            cur.push(c);
        }
        i = i + 1;
    }
    let finished = chars_to_string(&cur);
    let ghost segs0 = segments.deep_view();
    let ghost cur0 = cur@;
    segments.push(finished);
    proof {
        assert(split_colon_from(s@, n as int, cur0) =~= seq![cur0]);
        assert(segments.deep_view() =~= segs0.push(cur0));
        assert(segs0 + seq![cur0] =~= segments.deep_view());
    }
    segments
}

/// A directory entry joined with a file name, as the platform joins
/// paths: an absolute name stands alone, an empty directory contributes
/// nothing, a directory with a trailing separator is not doubled, and
/// otherwise a `/` goes between.
pub open spec fn path_join(dir: Seq<char>, name: Seq<char>) -> Seq<char> {
    if name.len() > 0 && name[0] == '/' {
        name
    } else if dir.len() == 0 {
        name
    } else if dir.last() == '/' {
        dir + name
    } else {
        dir + seq!['/'] + name
    }
}

/// Joins a directory and a file name.
pub fn join_path(dir: &str, name: &str) -> (r: String)
    ensures
        r@ == path_join(dir@, name@),
{
    let nn = name.unicode_len();
    let dn = dir.unicode_len();
    if nn > 0 && name.get_char(0) == '/' {
        String::from_str(name)
    } else if dn == 0 {
        String::from_str(name)
    } else if dir.get_char(dn - 1) == '/' {
        String::from_str(dir).concat(name)
    } else {
        proof {
            reveal_strlit("/");
            assert("/"@ =~= seq!['/']);
        }
        String::from_str(dir).concat("/").concat(name)
    }
}

/// The candidate paths a name is looked for under, one per `PATH` entry,
/// in order.
pub open spec fn candidates_spec(path_var: Seq<char>, name: Seq<char>) -> Seq<Seq<char>> {
    Seq::new(split_colon(path_var).len(), |i: int| path_join(split_colon(path_var)[i], name))
}

/// The candidate paths for `name` under the given `PATH` value, one per
/// entry, in order.
pub fn path_candidates(path_var: &str, name: &str) -> (r: Vec<String>)
    ensures
        r.deep_view() == candidates_spec(path_var@, name@),
{
    let entries = split_path(path_var);
    let ghost target = candidates_spec(path_var@, name@);
    let mut out: Vec<String> = Vec::new();
    let mut i: usize = 0;
    proof {
        assert(target.len() == entries.deep_view().len());
    }
    while i < entries.len()
        invariant
            i <= entries@.len(),
            entries.deep_view() == split_colon(path_var@),
            target == candidates_spec(path_var@, name@),
            target.len() == entries@.len(),
            out.deep_view().len() == i,
            forall|j: int| 0 <= j < i ==> #[trigger] out.deep_view()[j] == target[j],
        decreases entries@.len() - i,
    {
        let ghost out0 = out.deep_view();
        let joined = join_path(entries[i].as_str(), name);
        proof {
            assert(entries.deep_view()[i as int] == entries@[i as int]@);
        }
        out.push(joined);
        i = i + 1;
        proof {
            assert(out.deep_view() =~= out0.push(path_join(split_colon(path_var@)[i - 1], name@)));
        }
    }
    proof {
        assert(out.deep_view() =~= target);
    }
    out
}

/// The first candidate whose answer is yes, walking the two sequences
/// together from the front.
pub open spec fn first_match_spec(cands: Seq<Seq<char>>, is_exec: Seq<bool>) -> Option<Seq<char>>
    decreases cands.len(),
{
    if cands.len() == 0 {
        None
    } else if is_exec[0] {
        Some(cands[0])
    } else {
        first_match_spec(cands.drop_first(), is_exec.drop_first())
    }
}

proof fn lemma_first_match_step(cands: Seq<Seq<char>>, is_exec: Seq<bool>, i: int)
    requires
        0 <= i < cands.len(),
        cands.len() == is_exec.len(),
    ensures
        !is_exec[i] ==> first_match_spec(cands.skip(i), is_exec.skip(i)) == first_match_spec(
            cands.skip(i + 1),
            is_exec.skip(i + 1),
        ),
        is_exec[i] ==> first_match_spec(cands.skip(i), is_exec.skip(i)) == Some(cands[i]),
{
    assert(cands.skip(i).len() == cands.len() - i);
    assert(cands.skip(i)[0] == cands[i]);
    assert(is_exec.skip(i)[0] == is_exec[i]);
    assert(cands.skip(i).drop_first() =~= cands.skip(i + 1));
    assert(is_exec.skip(i).drop_first() =~= is_exec.skip(i + 1));
}

/// The first of the candidate paths whose executability answer is yes,
/// or nothing when every answer is no. `is_exec[i]` answers for
/// `candidates[i]`.
pub fn first_executable_match(candidates: &Vec<String>, is_exec: &Vec<bool>) -> (r: Option<String>)
    requires
        candidates@.len() == is_exec@.len(),
    ensures
        match r {
            Some(p) => first_match_spec(candidates.deep_view(), is_exec@) == Some(p@),
            None => first_match_spec(candidates.deep_view(), is_exec@) is None,
        },
{
    let ghost cands = candidates.deep_view();
    let ghost target = first_match_spec(cands, is_exec@);
    let n = candidates.len();
    let mut i: usize = 0;
    proof {
        assert(cands.skip(0) =~= cands);
        assert(is_exec@.skip(0) =~= is_exec@);
    }
    while i < n
        invariant
            i <= n,
            n == candidates@.len(),
            n == is_exec@.len(),
            cands == candidates.deep_view(),
            cands.len() == n,
            target == first_match_spec(cands, is_exec@),
            target == first_match_spec(cands.skip(i as int), is_exec@.skip(i as int)),
        decreases n - i,
    {
        proof {
            lemma_first_match_step(cands, is_exec@, i as int);
        }
        if is_exec[i] {
            proof {
                assert(cands[i as int] == candidates@[i as int]@);
            }
            return Some(candidates[i].clone());
        }
        i = i + 1;
    }
    proof {
        assert(cands.skip(n as int) =~= Seq::<Seq<char>>::empty());
    }
    None
}

/// `PATH` search agreement: for a non-built-in name, the `type` built-in
/// reports `NAME is P` exactly when the resolver — given the same
/// candidates and the same executability answers — chooses `P`, and
/// reports `NAME: not found` exactly when the resolver chooses nothing.
/// Both sides are the one function [`first_match_spec`] over
/// [`candidates_spec`], so the path `type` prints is the path the
/// executor would spawn.
pub proof fn lemma_type_agrees_with_resolver(
    name: Seq<char>,
    path_var: Seq<char>,
    is_exec: Seq<bool>,
)
    requires
        builtin_of(name) is None,
    ensures
        ({
            let resolved = first_match_spec(candidates_spec(path_var, name), is_exec);
            &&& (resolved matches Some(p) ==> type_line_spec(name, resolved) == name + " is "@ + p
                + "\n"@)
            &&& (resolved is None ==> type_line_spec(name, resolved) == name + ": not found\n"@)
        }),
{
}

} // verus!
