//! Planning a child process for a rule's command line: the line is split
//! into shell words, and a program name that is not an absolute path is
//! looked up first under the device manager's library directories.

use vstd::prelude::*;
use crate::text::{chars_of, string_extend, string_of};

verus! {

/// The words that `shell_words::split` makes of a command line, or `None`
/// where it reports an unmatched quote.
pub uninterp spec fn shell_words_of(s: Seq<char>) -> Option<Seq<Seq<char>>>;

/// The texts of a sequence of strings.
pub open spec fn strings_view(v: Seq<String>) -> Seq<Seq<char>> {
    v.map_values(|w: String| w@)
}

/// `shell_words::split`: the words of `s` with quotes and backslashes
/// removed; `None` where the crate reports an unmatched quote. Nothing
/// more of the words is stated than that they are the crate's result.
#[verifier::external_body]
fn shell_split(s: &str) -> (r: Option<Vec<String>>)
    ensures
        shell_words_of(s@) == (match r {
            Some(v) => Some(strings_view(v@)),
            None => None::<Seq<Seq<char>>>,
        }),
{
    match shell_words::split(s) {
        Ok(v) => Some(v),
        Err(_) => None,
    }
}

/// Why a command line cannot be spawned.
#[derive(Clone, Copy, Debug, PartialEq, Eq)]
pub enum SpawnError {
    /// A quote is not closed.
    Split,
    /// The line holds no word.
    Empty,
}

/// What to start for a command line: the programs to try in order (the
/// first that exists is started; the last is started in any case), and
/// the arguments that follow the program.
#[derive(Debug)]
pub struct SpawnPlan {
    pub programs: Vec<String>,
    pub args: Vec<String>,
}

/// The directories searched for a program given without an absolute path.
pub open spec fn lib_dirs() -> Seq<Seq<char>> {
    seq!["/lib/udev/"@, "/lib/devmaster/"@]
}

/// The programs tried for the first word `w`.
pub open spec fn program_candidates(w: Seq<char>) -> Seq<Seq<char>> {
    if w.len() > 0 && w[0] == '/' {
        seq![w]
    } else {
        seq![lib_dirs()[0] + w, lib_dirs()[1] + w, w]
    }
}

/// The plan for a line split into `words`: its programs and arguments.
pub open spec fn plan_of(words: Seq<Seq<char>>) -> Result<(Seq<Seq<char>>, Seq<Seq<char>>), SpawnError> {
    if words.len() == 0 {
        Err(SpawnError::Empty)
    } else {
        Ok((program_candidates(words[0]), words.drop_first()))
    }
}

/// The plan for the command line `s`.
pub open spec fn spawn_plan_of(s: Seq<char>) -> Result<(Seq<Seq<char>>, Seq<Seq<char>>), SpawnError> {
    match shell_words_of(s) {
        None => Err(SpawnError::Split),
        Some(words) => plan_of(words),
    }
}

/// The view of a plan.
pub open spec fn plan_view(r: Result<SpawnPlan, SpawnError>) -> Result<(Seq<Seq<char>>, Seq<Seq<char>>), SpawnError> {
    match r {
        Ok(p) => Ok((strings_view(p.programs@), strings_view(p.args@))),
        Err(e) => Err(e),
    }
}

/// `dir` followed by `w`.
fn joined_path(dir: &str, w: &String) -> (r: String)
    ensures
        r@ == dir@ + w@,
{
    let mut r = string_of(dir);
    let v = chars_of(w.as_str());
    string_extend(&mut r, &v);
    r
}

/// Plans the spawn of a line already split into `words`.
pub fn plan_from_words(words: Vec<String>) -> (r: Result<SpawnPlan, SpawnError>)
    ensures
        plan_view(r) == plan_of(strings_view(words@)),
{
    if words.len() == 0 {
        return Err(SpawnError::Empty);
    }
    let first = words[0].clone();
    let fv = chars_of(first.as_str());
    let mut programs: Vec<String> = Vec::new();
    if fv.len() > 0 && fv[0] == '/' {
        programs.push(first);
    } else {
        let udev = "/lib/udev/";
        let own = "/lib/devmaster/";
        programs.push(joined_path(udev, &first));
        programs.push(joined_path(own, &first));
        programs.push(first);
    }
    let mut args: Vec<String> = Vec::new();
    let mut i: usize = 1;
    while i < words.len()
        invariant
            1 <= i <= words.len(),
            strings_view(args@) == strings_view(words@).subrange(1, i as int),
        decreases words.len() - i,
    {
        let w = words[i].clone();
        assert(w@ == words@[i as int]@);
        let ghost before = args@;
        args.push(w);
        proof {
            assert(args@ == before.push(w));
            assert(strings_view(args@) =~= strings_view(before).push(w@));
        }
        i += 1;
        assert(strings_view(args@) =~= strings_view(words@).subrange(1, i as int));
    }
    proof {
        let ws = strings_view(words@);
        assert(ws.subrange(1, ws.len() as int) =~= ws.drop_first());
        assert(ws[0] == fv@);
        assert(strings_view(programs@) =~= program_candidates(ws[0]));
    }
    Ok(SpawnPlan { programs, args })
}

/// Plans the spawn of the command line `cmd`: split into shell words, the
/// first word names the program and the others are its arguments.
pub fn plan_spawn(cmd: &str) -> (r: Result<SpawnPlan, SpawnError>)
    ensures
        plan_view(r) == spawn_plan_of(cmd@),
{
    match shell_split(cmd) {
        None => Err(SpawnError::Split),
        Some(words) => plan_from_words(words),
    }
}

} // verus!
