//! The block that is appended to the exclusion file.

use crate::text::texts;
use vstd::prelude::*;
use vstd::string::StringExecFns;

verus! {

/// The given paths, each on a line of its own.
pub open spec fn path_lines(files: Seq<Seq<char>>) -> Seq<char>
    decreases files.len(),
{
    if files.len() == 0 {
        Seq::empty()
    } else {
        path_lines(files.drop_last()) + files.last() + "\n"@
    }
}

/// The block for the paths `files`: an empty line that sets it apart from
/// what the file held, a comment line that names the tool, and the paths.
pub open spec fn ignore_block(files: Seq<Seq<char>>) -> Seq<char> {
    "\n"@ + "# SuperGit\n"@ + path_lines(files)
}

/// The text to append to the exclusion file for the selected paths.  There
/// is nothing to append, not even the comment, where nothing was selected.
pub fn insert_files(files: &Vec<String>) -> (block: Option<String>)
    ensures
        files@.len() == 0 ==> block is None,
        files@.len() > 0 ==> (block matches Some(text) && text@ == ignore_block(texts(files@))),
{
    if files.len() == 0 {
        return None;
    }
    let ghost all = texts(files@);
    let mut text = String::from_str("\n");
    text.append("# SuperGit\n");
    let mut i: usize = 0;
    assert(all.take(0) =~= Seq::<Seq<char>>::empty());
    assert(text@ =~= ignore_block(all.take(0)));
    while i < files.len()
        invariant
            i <= files.len(),
            all == texts(files@),
            text@ == ignore_block(all.take(i as int)),
        decreases files.len() - i,
    {
        proof {
            assert(all.take(i as int + 1).drop_last() =~= all.take(i as int));
            assert(all.take(i as int + 1).last() == files@[i as int]@);
        }
        text.append(files[i].as_str());
        text.append("\n");
        i = i + 1;
        assert(text@ =~= ignore_block(all.take(i as int)));
    }
    assert(all.take(i as int) =~= all);
    Some(text)
}

} // verus!
