//! Names of the sample files that ship with the project.
use vstd::prelude::*;

verus! {

/// `count` copies of `name`.
pub open spec fn repeated(name: Seq<char>, count: nat) -> Seq<Seq<char>> {
    Seq::new(count, |i: int| name)
}

/// The names in `names`, as values.
pub open spec fn names_view(names: Seq<String>) -> Seq<Seq<char>> {
    Seq::new(names.len(), |i: int| names[i]@)
}

fn repeat_name(name: &str, count: usize) -> (names: Vec<String>)
    ensures
        names_view(names@) == repeated(name@, count as nat),
{
    let mut names: Vec<String> = Vec::new();
    let mut i: usize = 0;
    while i < count
        invariant
            i <= count,
            names.len() == i,
            forall|k: int| 0 <= k < i ==> (#[trigger] names@[k])@ == name@,
        decreases count - i,
    {
        names.push(name.to_owned());
        i += 1;
    }
    assert(names_view(names@) =~= repeated(name@, count as nat));
    names
}

/// The sample feature file, `count` times.
pub fn get_test_feature_filenames(count: usize) -> (names: Vec<String>)
    ensures
        names_view(names@) == repeated("resources/simple_features_nohash_96.txt"@, count as nat),
{
    repeat_name("resources/simple_features_nohash_96.txt", count)
}

/// The sample file of encoded batches, `count` times.
pub fn get_test_gridbuffer_filenames(count: usize) -> (names: Vec<String>)
    ensures
        names_view(names@) == repeated(
            "resources/gridbuffers_nohash_row_16_col_81_bitpacking4x.txt"@,
            count as nat,
        ),
{
    repeat_name("resources/gridbuffers_nohash_row_16_col_81_bitpacking4x.txt", count)
}

/// How many files each of `num_threads` threads reads at most when
/// `count` files are shared out evenly: `count / num_threads`, rounded up.
/// No thread reads nothing.
pub fn chunk_size(count: usize, num_threads: usize) -> (size: usize)
    ensures
        num_threads == 0 ==> size == 0,
        num_threads > 0 ==> size == (count + num_threads - 1) / (num_threads as int),
        num_threads > 0 ==> size * num_threads >= count,
{
    if num_threads == 0 {
        return 0;
    }
    let whole = count / num_threads;
    assert(count % num_threads != 0 ==> whole < count) by (nonlinear_arith)
        requires
            num_threads > 0,
            whole == count / num_threads,
    ;
    let size = if count % num_threads == 0 {
        whole
    } else {
        whole + 1
    };
    assert(size == (count + num_threads - 1) / (num_threads as int) && size * num_threads >= count)
        by (nonlinear_arith)
        requires
            num_threads > 0,
            whole == count / num_threads,
            count % num_threads == 0 ==> size == whole,
            count % num_threads != 0 ==> size == whole + 1,
    ;
    size
}

} // verus!
