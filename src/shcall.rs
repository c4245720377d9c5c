//! Shell scripts run as hooks: their text and the interpreter that runs them.
use crate::pathstr::{chars_of, first_index, first_index_of, is_prefix, lemma_first_index, split_spec, texts};
use crate::textops::{trim_of, trimmed_of};
use vstd::prelude::*;
use vstd::string::*;

verus! {

/// The shell used for a script that is empty.
pub const SHELL_DEFAULT: &'static str = "/usr/bin/sh";

/// The shells tried, in order, for a script without a usable `#!` line.
pub open spec fn shells() -> Seq<&'static str> {
    seq!["/usr/bin/bash", "/usr/bin/ksh", "/usr/bin/dash", "/usr/bin/zsh", "/usr/bin/ash"]
}

pub fn shells_list() -> (r: Vec<&'static str>)
    ensures
        r@ == shells(),
{
    let r = vec!["/usr/bin/bash", "/usr/bin/ksh", "/usr/bin/dash", "/usr/bin/zsh", "/usr/bin/ash"];
    assert(r@ =~= shells());
    r
}

/// The interpreter a script names on its first line: what follows `#!`
/// on the trimmed line, or nothing.
pub open spec fn shebang_of(d: Seq<char>) -> Seq<char> {
    let t = trimmed_of(split_spec(d, '\n')[0]);
    if is_prefix("#!"@, t) {
        t.subrange(2, t.len() as int)
    } else {
        Seq::empty()
    }
}

/// The text after the first line, or nothing where there is one line.
pub open spec fn after_first_line(d: Seq<char>) -> Seq<char> {
    let i = first_index(d, '\n');
    if i < 0 {
        Seq::empty()
    } else {
        d.subrange(i + 1, d.len() as int)
    }
}

pub struct ShellScript {
    pub data: String,
    pub args: Vec<String>,
}

impl ShellScript {
    /// Create a new Script wrapper: the text trimmed, or a bare `#!` line
    /// for the default shell where nothing is left
    pub fn new(data: String, args: Option<Vec<String>>) -> (r: Self)
        ensures
            trimmed_of(data@).len() > 0 ==> r.data@ == trimmed_of(data@),
            trimmed_of(data@).len() == 0 ==> r.data@ == "#!"@ + SHELL_DEFAULT@ + "\n"@,
            r.args@ == match args {
                Some(a) => a@,
                None => Seq::empty(),
            },
    {
        let a = match args {
            Some(a) => a,
            None => Vec::new(),
        };
        let s = trim_of(data.as_str());
        Self::from_trimmed(s, a)
    }

    /// A script from its trimmed text: a bare `#!` line for the default
    /// shell where the text is empty
    pub fn from_trimmed(s: String, args: Vec<String>) -> (r: Self)
        ensures
            s@.len() > 0 ==> r.data@ == s@,
            s@.len() == 0 ==> r.data@ == "#!"@ + SHELL_DEFAULT@ + "\n"@,
            r.args == args,
    {
        if s.unicode_len() == 0 {
            let mut d = "#!".to_owned();
            d.append(SHELL_DEFAULT);
            d.append("\n");
            ShellScript { data: d, args }
        } else {
            ShellScript { data: s, args }
        }
    }

    /// The interpreter the script names on its first line, or an empty text
    pub fn shebang(&self) -> (r: String)
        ensures
            r@ == shebang_of(self.data@),
    {
        let lines = crate::pathstr::split_on(self.data.as_str(), '\n');
        assert(texts(lines@)[0] == lines@[0]@);
        let t = trim_of(lines[0].as_str());
        Self::interpreter_of(t.as_str())
    }

    /// The interpreter named by a trimmed first line, or an empty text
    pub fn interpreter_of(t: &str) -> (r: String)
        ensures
            is_prefix("#!"@, t@) ==> r@ == t@.subrange(2, t@.len() as int),
            !is_prefix("#!"@, t@) ==> r@.len() == 0,
    {
        proof {
            reveal_strlit("#!");
        }
        if crate::pathstr::starts_with(t, "#!") {
            let n = t.unicode_len();
            t.substring_char(2, n).to_owned()
        } else {
            String::new()
        }
    }

    /// The script without its first line
    pub fn body(&self) -> (r: String)
        ensures
            r@ == after_first_line(self.data@),
    {
        let c = chars_of(self.data.as_str());
        proof {
            lemma_first_index(self.data@, '\n');
        }
        match first_index_of(&c, '\n') {
            None => String::new(),
            Some(i) => {
                let n = self.data.unicode_len();
                self.data.as_str().substring_char(i + 1, n).to_owned()
            },
        }
    }

    /// Get script shebang or suggest one, with the text to feed it: the
    /// named interpreter where it is installed, else the first installed
    /// shell, else the default shell.
    /// `shebang_exists` tells whether the named interpreter is installed,
    /// `present[i]` whether the shell `shells()[i]` is.
    pub fn detach_shebang(&self, shebang_exists: bool, present: &Vec<bool>) -> (r: (String, String))
        requires
            present@.len() == shells().len(),
        ensures
            shebang_exists ==> r.0@ == shebang_of(self.data@) && r.1@ == after_first_line(self.data@),
            !shebang_exists && (exists|i: int| 0 <= i < present@.len() && present@[i]) ==> (r.1@ == self.data@ && exists|i: int|
                0 <= i < present@.len() && present@[i] && r.0@ == shells()[i]@ && forall|j: int|
                    0 <= j < i ==> !present@[j]),
            !shebang_exists && (forall|i: int| 0 <= i < present@.len() ==> !present@[i]) ==> (r.0@ == SHELL_DEFAULT@ && r.1@ == self.data@),
    {
        if shebang_exists {
            return (self.shebang(), self.body());
        }
        let sh = shells_list();
        let mut i: usize = 0;
        while i < present.len()
            invariant
                i <= present@.len(),
                present@.len() == shells().len(),
                sh@ == shells(),
                !shebang_exists,
                forall|j: int| 0 <= j < i ==> !present@[j],
            decreases present@.len() - i,
        {
            if present[i] {
                let name = sh[i].to_owned();
                assert(present@[i as int] && name@ == shells()[i as int]@ && forall|j: int| 0 <= j < i ==> !present@[j]);
                return (name, self.data.clone());
            }
            i = i + 1;
        }
        (SHELL_DEFAULT.to_owned(), self.data.clone())
    }
}

} // verus!
