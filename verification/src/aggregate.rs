//! Order-preserving aggregation of matched files into tagged line blocks.

use vstd::prelude::*;
use vstd::string::StringExecFns;

use rayon::iter::IndexedParallelIterator;
use rayon::iter::IntoParallelRefIterator;
use rayon::iter::ParallelIterator;

use crate::paths::matches_rule;
use crate::paths::spec_matches;
use crate::selector::SelectionRule;
use crate::timestamp::format_rfc3339_utc;
use crate::timestamp::rfc3339_of;
use crate::util::append_all;

verus! {

/// One traversal result: a path and whether it is a regular file.
pub struct Entry {
    pub path: String,
    pub is_file: bool,
}

/// One matched file ready for aggregation: its path, its last-modified
/// time already rendered as RFC 3339 UTC, and its content lines.
pub struct FileData {
    pub path: String,
    pub modified: String,
    pub lines: Vec<String>,
}

/// The paths of the regular files among `entries` that `rule` selects, in
/// traversal order.
pub open spec fn spec_filter(entries: Seq<Entry>, rule: SelectionRule) -> Seq<Seq<char>>
    decreases entries.len(),
{
    if entries.len() == 0 {
        Seq::empty()
    } else {
        let rest = spec_filter(entries.drop_last(), rule);
        let e = entries.last();
        if e.is_file && spec_matches(e.path@, rule) {
            rest.push(e.path@)
        } else {
            rest
        }
    }
}

/// Keeps, in order, the paths of the regular files that `rule` selects.
pub fn filter_entries(entries: &Vec<Entry>, rule: &SelectionRule) -> (r: Vec<String>)
    ensures
        r.deep_view() == spec_filter(entries@, *rule),
{
    let mut r: Vec<String> = Vec::new();
    let mut i: usize = 0;
    proof {
        assert(r.deep_view() =~= Seq::<Seq<char>>::empty());
        assert(entries@.take(0) =~= Seq::<Entry>::empty());
    }
    while i < entries.len()
        invariant
            i <= entries@.len(),
            r.deep_view() == spec_filter(entries@.take(i as int), *rule),
        decreases entries@.len() - i,
    {
        let e = &entries[i];
        let ghost prev = r.deep_view();
        if e.is_file && matches_rule(e.path.as_str(), rule) {
            r.push(e.path.clone());
            proof {
                assert(r.deep_view() =~= prev.push(entries@[i as int].path@));
            }
        }
        proof {
            assert(entries@.take(i as int + 1).drop_last() =~= entries@.take(i as int));
            assert(entries@.take(i as int + 1).last() == entries@[i as int]);
        }
        i += 1;
    }
    proof {
        assert(entries@.take(entries@.len() as int) =~= entries@);
    }
    r
}

/// The one open-tag line of a file block.
pub open spec fn spec_open_tag(path: Seq<char>, modified: Seq<char>) -> Seq<char> {
    "<file name=\""@ + path + "\" last_modified=\""@ + modified + "\">"@
}

/// The tagged block of one file: open tag, content lines, close tag.
pub open spec fn spec_block(fd: FileData) -> Seq<Seq<char>> {
    seq![spec_open_tag(fd.path@, fd.modified@)] + fd.lines.deep_view() + seq!["</file>"@]
}

/// The block of one read result: a skipped file contributes nothing.
pub open spec fn spec_block_opt(o: Option<FileData>) -> Seq<Seq<char>> {
    match o {
        Some(fd) => spec_block(fd),
        None => Seq::empty(),
    }
}

/// The aggregate of the read results, in input order.
pub open spec fn spec_aggregate(inputs: Seq<Option<FileData>>) -> Seq<Seq<char>>
    decreases inputs.len(),
{
    if inputs.len() == 0 {
        Seq::empty()
    } else {
        spec_aggregate(inputs.drop_last()) + spec_block_opt(inputs.last())
    }
}

fn open_tag(path: &String, modified: &String) -> (r: String)
    ensures
        r@ == spec_open_tag(path@, modified@),
{
    let mut t = String::from_str("<file name=\"");
    t.append(path.as_str());
    t.append("\" last_modified=\"");
    t.append(modified.as_str());
    t.append("\">");
    proof {
        assert(t@ =~= spec_open_tag(path@, modified@));
    }
    t
}

/// The tagged block of one matched file: its open tag carrying path and
/// last-modified time, its content lines in order, and the close tag.
pub fn build_file_block(fd: &FileData) -> (r: Vec<String>)
    ensures
        r.deep_view() == spec_block(*fd),
{
    let t = open_tag(&fd.path, &fd.modified);
    let ghost tv = t@;
    let mut r: Vec<String> = Vec::new();
    r.push(t);
    proof {
        assert(r.deep_view() =~= seq![tv]);
    }
    append_all(&mut r, &fd.lines);
    let ghost prev = r.deep_view();
    let c = String::from_str("</file>");
    let ghost cv = c@;
    r.push(c);
    proof {
        assert(r.deep_view() =~= prev.push(cv));
        assert(prev.push(cv) =~= spec_block(*fd));
    }
    r
}

/// The lines one read result contributes: a whole block, or none at all.
pub fn block_or_empty(input: &Option<FileData>) -> (r: Vec<String>)
    ensures
        r.deep_view() == spec_block_opt(*input),
{
    match input {
        Some(fd) => build_file_block(fd),
        None => {
            let r: Vec<String> = Vec::new();
            proof {
                assert(r.deep_view() =~= Seq::<Seq<char>>::empty());
            }
            r
        },
    }
}

/// Relies on rayon's indexed parallel map: `par_iter().map(..)` keeps each
/// result at its item's index and `collect_into_vec` writes it there, so
/// whatever the worker-pool size, the output at position `i` is what
/// `block_or_empty` (a verified function) returns for the input at `i`.
#[verifier::external_body]
fn par_blocks(inputs: &Vec<Option<FileData>>) -> (r: Vec<Vec<String>>)
    ensures
        r@.len() == inputs@.len(),
        forall|i: int|
            0 <= i < inputs@.len() ==> #[trigger] r@[i].deep_view() == spec_block_opt(inputs@[i]),
{
    let mut out: Vec<Vec<String>> = Vec::new();
    inputs.par_iter().map(block_or_empty).collect_into_vec(&mut out);
    out
}

/// Concatenates the blocks of the read results, in input order, skipping
/// the failed reads.
pub fn aggregate(inputs: &Vec<Option<FileData>>) -> (r: Vec<String>)
    ensures
        r.deep_view() == spec_aggregate(inputs@),
{
    let mut r: Vec<String> = Vec::new();
    let mut i: usize = 0;
    proof {
        assert(r.deep_view() =~= Seq::<Seq<char>>::empty());
        assert(inputs@.take(0) =~= Seq::<Option<FileData>>::empty());
    }
    while i < inputs.len()
        invariant
            i <= inputs@.len(),
            r.deep_view() == spec_aggregate(inputs@.take(i as int)),
        decreases inputs@.len() - i,
    {
        let block = block_or_empty(&inputs[i]);
        append_all(&mut r, &block);
        proof {
            assert(inputs@.take(i as int + 1).drop_last() =~= inputs@.take(i as int));
            assert(inputs@.take(i as int + 1).last() == inputs@[i as int]);
        }
        i += 1;
    }
    proof {
        assert(inputs@.take(inputs@.len() as int) =~= inputs@);
    }
    r
}

/// The same aggregate as [`aggregate`], with the blocks built by a worker
/// pool. Both contracts pin the result to `spec_aggregate(inputs@)`, so the
/// output, and in particular its order, does not depend on the pool size.
pub fn aggregate_parallel(inputs: &Vec<Option<FileData>>) -> (r: Vec<String>)
    ensures
        r.deep_view() == spec_aggregate(inputs@),
{
    let blocks = par_blocks(inputs);
    let mut r: Vec<String> = Vec::new();
    let mut i: usize = 0;
    proof {
        assert(r.deep_view() =~= Seq::<Seq<char>>::empty());
        assert(inputs@.take(0) =~= Seq::<Option<FileData>>::empty());
    }
    while i < blocks.len()
        invariant
            blocks@.len() == inputs@.len(),
            forall|k: int|
                0 <= k < inputs@.len() ==> #[trigger] blocks@[k].deep_view() == spec_block_opt(
                    inputs@[k],
                ),
            i <= blocks@.len(),
            r.deep_view() == spec_aggregate(inputs@.take(i as int)),
        decreases blocks@.len() - i,
    {
        append_all(&mut r, &blocks[i]);
        proof {
            assert(inputs@.take(i as int + 1).drop_last() =~= inputs@.take(i as int));
            assert(inputs@.take(i as int + 1).last() == inputs@[i as int]);
        }
        i += 1;
    }
    proof {
        assert(inputs@.take(inputs@.len() as int) =~= inputs@);
    }
    r
}

/// Law: a skipped read contributes nothing to the aggregate.
pub proof fn lemma_skip_contributes_nothing(inputs: Seq<Option<FileData>>)
    ensures
        spec_aggregate(inputs.push(None)) == spec_aggregate(inputs),
{
    assert(inputs.push(None).drop_last() =~= inputs);
    assert(spec_aggregate(inputs) + spec_block_opt(None) =~= spec_aggregate(inputs));
}

/// Builds the aggregation record of one matched file from its path, its
/// last-modified instant (seconds and nanoseconds after the Unix epoch),
/// and its content lines; `None` when the instant cannot be rendered.
pub fn make_file_data(path: String, secs: i64, nanos: u32, lines: Vec<String>) -> (r: Option<
    FileData,
>)
    ensures
        r matches Some(fd) ==> fd.path == path && fd.modified@ == rfc3339_of(
            secs as int,
            nanos as int,
        ) && fd.lines == lines,
        0 <= secs < 253402300800 && nanos < 1000000000 ==> r is Some,
{
    match format_rfc3339_utc(secs, nanos) {
        Some(modified) => Some(FileData { path, modified, lines }),
        None => None,
    }
}

} // verus!
