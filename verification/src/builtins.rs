//! The shell's built-in commands: recognition and the pure part of each.

use vstd::prelude::*;

verus! {

/// Whether a command name is one of the shell's built-ins.
pub open spec fn spec_is_builtin(name: Seq<char>) -> bool {
    name == "cd"@ || name == "help"@ || name == "exit"@
}

/// Compares two strings character by character.
fn str_eq(a: &str, b: &str) -> (r: bool)
    ensures
        r == (a@ == b@),
{
    let an = a.unicode_len();
    let bn = b.unicode_len();
    if an != bn {
        return false;
    }
    let mut i: usize = 0;
    while i < an
        invariant
            i <= an,
            an == a@.len(),
            an == b@.len(),
            forall|j: int| 0 <= j < i ==> a@[j] == b@[j],
        decreases an - i,
    {
        if a.get_char(i) != b.get_char(i) {
            return false;
        }
        i = i + 1;
    }
    proof {
        assert(a@ =~= b@);
    }
    true
}

/// Recognizes the built-in command names.
pub fn is_builtin(name: &str) -> (r: bool)
    ensures
        r == spec_is_builtin(name@),
{
    str_eq(name, "cd") || str_eq(name, "help") || str_eq(name, "exit")
}

/// The text the help built-in displays.
pub open spec fn spec_help_text() -> Seq<char> {
    "moonsh

Builtins:
cd <dest>
exit
help
slice [dir]
    Define a new slice with 'dir' as the first directory in the stack.
    'dir' is optional and will use $HOME as a default.
slices
    Display currently allocated slices graphically.
pop <n>
    Pop n directories from the current slice's stack.
    'pop a' will remove all directories on the stack and fill the stack with the directory at $HOME.
reload <config_file>
    Tear down all current slices and read the given config file as a sequence of moonsh commands."@
}

/// The help built-in: hands its text back on the error channel, where the
/// shell's loop displays it.
pub fn help() -> (r: Result<i32, &'static str>)
    ensures
        r is Err,
        r->Err_0@ == spec_help_text(),
{
    Err(
        "moonsh

Builtins:
cd <dest>
exit
help
slice [dir]
    Define a new slice with 'dir' as the first directory in the stack.
    'dir' is optional and will use $HOME as a default.
slices
    Display currently allocated slices graphically.
pop <n>
    Pop n directories from the current slice's stack.
    'pop a' will remove all directories on the stack and fill the stack with the directory at $HOME.
reload <config_file>
    Tear down all current slices and read the given config file as a sequence of moonsh commands.",
    )
}

/// The exit built-in: the fixed word the shell's loop reads as an order to
/// stop.
pub fn exit() -> (r: Result<i32, &'static str>)
    ensures
        r is Err,
        r->Err_0@ == "exit"@,
{
    Err("exit")
}

/// The directory a cd command asks to change to: the command's first
/// argument, which must be present and non-empty.
pub fn cd_target<'a>(args: &Vec<&'a str>) -> (r: Result<&'a str, &'static str>)
    ensures
        r is Ok <==> args@.len() > 0 && args@[0]@.len() > 0,
        r is Ok ==> r->Ok_0 == args@[0],
        r is Err ==> r->Err_0@ == "Expected an argument to cd"@,
{
    if args.len() == 0 {
        return Err("Expected an argument to cd");
    }
    let dir: &str = args[0];
    if dir.is_empty() {
        return Err("Expected an argument to cd");
    }
    Ok(dir)
}

} // verus!
