//! The target process's identity, and name handling around it.

use vstd::prelude::*;

use crate::strutil::str_eq;

verus! {

/// What the reader knows about the process it profiles.
pub struct ProcessInfo {
    /// The process id.
    pub pid: u32,
    /// The process's short name.
    pub name: String,
    /// The path of its executable.
    pub exe_path: String,
}

impl ProcessInfo {
    /// Assemble the identity from its parts.
    pub fn from_parts(pid: u32, name: String, exe_path: String) -> (r: ProcessInfo)
        ensures
            r.pid == pid,
            r.name@ == name@,
            r.exe_path@ == exe_path@,
    {
        ProcessInfo { pid, name, exe_path }
    }

    /// The process id.
    pub fn pid(&self) -> (r: u32)
        ensures
            r == self.pid,
    {
        self.pid
    }

    /// The process's short name.
    pub fn name(&self) -> (r: &str)
        ensures
            r@ == self.name@,
    {
        self.name.as_str()
    }

    /// The path of its executable.
    pub fn exe_path(&self) -> (r: &str)
        ensures
            r@ == self.exe_path@,
    {
        self.exe_path.as_str()
    }
}

/// A character a sanitized name keeps as it is.
pub open spec fn spec_name_keep(c: char) -> bool {
    (48 <= c as u32 <= 57) || (65 <= c as u32 <= 90) || (97 <= c as u32 <= 122) || c == '-' || c
        == '_'
}

/// The sanitized form of the first `n` characters of a name: letters,
/// digits, dashes and underscores stay, everything else becomes a dash.
pub open spec fn spec_sanitize(s: Seq<char>, n: int) -> Seq<char>
    decreases n,
{
    if n <= 0 || n > s.len() {
        Seq::empty()
    } else {
        spec_sanitize(s, n - 1).push(
            if spec_name_keep(s[n - 1]) {
                s[n - 1]
            } else {
                '-'
            },
        )
    }
}

/// Sanitize a process name for use in a file name: keep at most 32
/// characters, replacing anything but letters, digits, dashes and
/// underscores by a dash.
pub fn sanitize_name(name: &str) -> (r: String)
    ensures
        r@ == spec_sanitize(name@, if name@.len() < 32 {
            name@.len() as int
        } else {
            32
        }),
{
    let len = name.unicode_len();
    let n = if len < 32 {
        len
    } else {
        32
    };
    let mut r = String::new();
    let mut i: usize = 0;
    while i < n
        invariant
            i <= n,
            n <= name@.len(),
            r@ == spec_sanitize(name@, i as int),
        decreases n - i,
    {
        let c = name.get_char(i);
        let u = c as u32;
        let keep = (48 <= u && u <= 57) || (65 <= u && u <= 90) || (97 <= u && u <= 122) || c == '-'
            || c == '_';
        if keep {
            let piece = name.substring_char(i, i + 1);
            r.append(piece);
        } else {
            r.append("-");
            proof {
                reveal_strlit("-");
            }
        }
        proof {
            assert(r@ =~= spec_sanitize(name@, i + 1));
        }
        i += 1;
    }
    r
}

/// The outcome of matching running processes against a name, as the
/// enumeration in the reader reports it: no match, exactly one, or
/// several (ambiguous).
pub fn pick_process_match(matches: &Vec<(u32, String)>, pattern: &str) -> (r: Result<
    u32,
    crate::error::ProfError,
>)
    ensures
        matches@.len() == 1 ==> r is Ok && r->Ok_0 == matches@[0].0,
        matches@.len() == 0 ==> r is Err && r->Err_0 is ProcessNotFound,
        matches@.len() > 1 ==> r is Err && r->Err_0 is MultipleProcesses,
{
    if matches.len() == 1 {
        Ok(matches[0].0)
    } else if matches.len() == 0 {
        let mut m = String::new();
        m.append("no process matching ");
        m.append(pattern);
        Err(crate::error::ProfError::ProcessNotFound(m))
    } else {
        let mut m = String::new();
        m.append("several processes match ");
        m.append(pattern);
        Err(crate::error::ProfError::MultipleProcesses(m, pattern.to_owned()))
    }
}

} // verus!
