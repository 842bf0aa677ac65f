use vstd::prelude::*;

verus! {

/// The line appended to the shared `.log` file for message `s`: the message
/// followed by a newline.
pub fn im(s: String) -> (line: String)
    ensures
        line@ == s@.push('\n'),
{
    let mut line = s;
    line.append("\n");
    proof {
        reveal_strlit("\n");
    }
    line
}

} // verus!
