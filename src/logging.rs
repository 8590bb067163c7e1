//! Formatting of diagnostic messages.
use vstd::prelude::*;

verus! {

/// The line that a message of `level` becomes: the level, a colon and a
/// space, the message and a line break.
pub open spec fn log_line(level: Seq<char>, message: Seq<char>) -> Seq<char> {
    level + ": "@ + message + "\n"@
}

/// Appends to `dest` the line of `message` at `level` when `enabled`, and
/// leaves `dest` as it is otherwise.
pub fn write_log(dest: &mut String, enabled: bool, level: &str, message: &str)
    ensures
        final(dest)@ == if enabled {
            old(dest)@ + log_line(level@, message@)
        } else {
            old(dest)@
        },
{
    if enabled {
        dest.append(level);
        dest.append(": ");
        dest.append(message);
        dest.append("\n");
    }
}

/// Appends to `dest` the debug line of `message` when `enabled`.
pub fn debug(dest: &mut String, enabled: bool, message: &str)
    ensures
        final(dest)@ == if enabled {
            old(dest)@ + log_line("DEBUG"@, message@)
        } else {
            old(dest)@
        },
{
    write_log(dest, enabled, "DEBUG", message);
}

} // verus!
