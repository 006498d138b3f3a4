use vstd::prelude::*;

verus! {

/// The text of a call stack: the heading, then each frame on a line of its
/// own.
pub open spec fn stack_text(frames: Seq<Seq<char>>) -> Seq<char>
    decreases frames.len(),
{
    if frames.len() == 0 {
        "Call Stack:"@
    } else {
        stack_text(frames.drop_last()) + "\n"@ + frames.last()
    }
}

/// The character sequences that a list of strings stands for.
pub open spec fn texts_of(lines: Seq<String>) -> Seq<Seq<char>> {
    Seq::new(lines.len(), |i: int| lines[i]@)
}

/// Renders the frames of a call stack, outermost call last, as one text: a
/// heading line followed by one line for each frame.
pub fn format_backtrace(frames: &Vec<String>) -> (text: String)
    ensures
        text@ == stack_text(texts_of(frames@)),
{
    let mut text: String = "Call Stack:".to_owned();
    let mut i: usize = 0;
    while i < frames.len()
        invariant
            i <= frames.len(),
            text@ == stack_text(texts_of(frames@).take(i as int)),
        decreases frames.len() - i,
    {
        proof {
            let lines = texts_of(frames@);
            assert(lines.take(i + 1).drop_last() =~= lines.take(i as int));
            assert(lines.take(i + 1).last() == frames@[i as int]@);
        }
        text.append("\n");
        text.append(frames[i].as_str());
        i += 1;
    }
    assert(texts_of(frames@).take(frames@.len() as int) =~= texts_of(frames@));
    text
}

} // verus!
