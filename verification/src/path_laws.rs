//! What holds of the paths of directories.
use vstd::prelude::*;
use vstd::std_specs::cmp::PartialEqSpec;
use vstd::utf8;

use crate::path::{DirPath, DirView, PartView, StepView};

verus! {

/// A name in a directory is below it: the path ends with the name, and the path above is the
/// directory.
pub proof fn law_name_in_a_directory(dir: DirView, name: Seq<char>)
    ensures
        dir.join(name).file_name() == Some(utf8::encode_utf8(name)),
        dir.join(name).parent() is Some,
        dir.join(name).parent()->Some_0.parts == dir.parts,
        dir.join(name).parent()->Some_0.base == dir.base,
        dir.join(name).base == dir.base,
        dir.join(name).steps.drop_last() == dir.steps,
        dir.join(name).steps.last() == StepView::Join(utf8::encode_utf8(name)),
{
    assert(dir.join(name).parts.drop_last() =~= dir.parts);
    assert(dir.join(name).steps.drop_last() =~= dir.steps);
}

/// The path above a path leaves out its last part and keeps the others. There is none above a
/// root, a prefix or the empty path, and there is one above any other.
pub proof fn law_path_above(dir: DirView)
    ensures
        dir.parent() is None <==> dir.parts.len() == 0 || dir.parts.last() is RootDir
            || dir.parts.last() is Prefix,
        dir.parent() matches Some(above) ==> {
            &&& above.base == dir.base
            &&& above.parts.push(dir.parts.last()) == dir.parts
            &&& above.steps.drop_last() == dir.steps
            &&& above.steps.last() == StepView::Parent
        },
{
    if let Some(above) = dir.parent() {
        assert(above.parts.push(dir.parts.last()) =~= dir.parts);
        assert(above.steps.drop_last() =~= dir.steps);
    }
}

/// A path ends with a name exactly if its last part is that name.
pub proof fn law_file_name(dir: DirView, name: Seq<u8>)
    ensures
        dir.file_name() == Some(name) <==> dir.parts.len() > 0 && dir.parts.last()
            == PartView::Normal(name),
        dir.file_name() is None <==> dir.parts.len() == 0 || !(dir.parts.last() is Normal),
{
}

/// Two paths are the same exactly if their parts are, however they are written.
pub proof fn law_same_directory(a: DirPath, b: DirPath)
    ensures
        <DirPath as PartialEqSpec>::eq_spec(&a, &b) <==> a@.parts.len() == b@.parts.len() && forall|
            i: int,
        |
            0 <= i < a@.parts.len() ==> a@.parts[i] == b@.parts[i],
{
    if a@.parts.len() == b@.parts.len() && forall|i: int|
        0 <= i < a@.parts.len() ==> a@.parts[i] == b@.parts[i] {
        assert(a@.parts =~= b@.parts);
    }
}

/// The paths from a directory upwards start with it, and go on with those above the one above it,
/// as long as there are any and no more are asked for than there may be.
pub proof fn law_paths_upwards(dir: DirView, count: nat, i: int)
    ensures
        dir.ancestors(0) == Seq::<DirView>::empty(),
        count > 0 ==> dir.ancestors(count).len() > 0 && dir.ancestors(count)[0] == dir,
        dir.ancestors(count).len() <= count,
        0 <= i < dir.ancestors(count).len() - 1 ==> dir.ancestors(count)[i].parent() == Some(
            dir.ancestors(count)[i + 1],
        ),
        0 < dir.ancestors(count).len() < count ==> dir.ancestors(count).last().parent() is None,
    decreases count,
{
    if count > 0 {
        if let Some(above) = dir.parent() {
            let rest = above.ancestors((count - 1) as nat);
            law_paths_upwards(above, (count - 1) as nat, i - 1);
            assert(dir.ancestors(count) == seq![dir] + rest);
            if rest.len() > 0 {
                assert(dir.ancestors(count).last() == rest.last());
            }
        }
    }
}

} // verus!
