use vstd::prelude::*;

use crate::strutil::{spec_lines, split_lines};
use crate::transforms::{
    into_csl_items, medline_to_csl, merge_multiline_items, reduce_authors, spec_fold_item,
    spec_into_csl_items, spec_medline_to_csl, spec_merge, spec_reduce,
};
use crate::types::{CSLItem, CSLItemView, CSLValue, CSLValueView};

pub mod groupby;
pub mod strutil;
pub mod tags;
pub mod transforms;
pub mod types;

verus! {

/// The three structural failures a citation block can suffer: a raw line too
/// short to carry a tag, a continuation line with no open field, and a merged
/// line that fails the tag/separator shape check.
#[derive(Clone, Copy, Debug, PartialEq, Eq, Structural)]
pub enum NbibError {
    MalformedLine,
    InvalidState,
    MalformedRecord,
}

/// The model of a fallible result: the success value replaced by its model.
pub open spec fn res_view<T: DeepView>(r: Result<T, NbibError>) -> Result<T::V, NbibError> {
    match r {
        Ok(v) => Ok(v.deep_view()),
        Err(e) => Err(e),
    }
}

// ---------------------------------------------------------------------------
// Splitting into blocks, and the whole pipeline
// ---------------------------------------------------------------------------

/// The index of the first blank line, if any.
pub open spec fn spec_find_blank(lines: Seq<Seq<char>>) -> Option<int>
    decreases lines.len(),
{
    if lines.len() == 0 {
        None
    } else if lines[0].len() == 0 {
        Some(0int)
    } else {
        match spec_find_blank(lines.skip(1)) {
            Some(i) => Some(i + 1),
            None => None,
        }
    }
}

/// The first blank line, when there is one, lies in range, is blank, and no
/// line before it is blank.
pub proof fn lemma_find_blank_bounds(lines: Seq<Seq<char>>)
    ensures
        match spec_find_blank(lines) {
            Some(i) => 0 <= i < lines.len() && lines[i].len() == 0 && forall|j: int|
                0 <= j < i ==> lines[j].len() > 0,
            None => forall|j: int| 0 <= j < lines.len() ==> lines[j].len() > 0,
        },
    decreases lines.len(),
{
    if lines.len() > 0 && lines[0].len() > 0 {
        lemma_find_blank_bounds(lines.skip(1));
        match spec_find_blank(lines.skip(1)) {
            Some(i) => {
                assert(lines[i + 1] == lines.skip(1)[i]);
                assert forall|j: int| 0 <= j < i + 1 implies lines[j].len() > 0 by {
                    if j > 0 {
                        assert(lines.skip(1)[j - 1] == lines[j]);
                    }
                }
            },
            None => {
                assert forall|j: int| 0 <= j < lines.len() implies lines[j].len() > 0 by {
                    if j > 0 {
                        assert(lines.skip(1)[j - 1] == lines[j]);
                    }
                }
            },
        }
    }
}

/// The blank-line-delimited blocks of a line sequence: every blank line
/// separates two blocks, and blocks may be empty.
pub open spec fn spec_blocks(lines: Seq<Seq<char>>) -> Seq<Seq<Seq<char>>>
    decreases lines.len(),
    via spec_blocks_decreases
{
    match spec_find_blank(lines) {
        Some(i) => seq![lines.take(i)] + spec_blocks(lines.skip(i + 1)),
        None => seq![lines],
    }
}

#[via_fn]
proof fn spec_blocks_decreases(lines: Seq<Seq<char>>) {
    lemma_find_blank_bounds(lines);
}

/// Prefixing blank-free lines shifts the first blank line by their count.
pub proof fn lemma_find_blank_concat(cur: Seq<Seq<char>>, rest: Seq<Seq<char>>)
    requires
        forall|j: int| 0 <= j < cur.len() ==> cur[j].len() > 0,
    ensures
        spec_find_blank(cur + rest) == match spec_find_blank(rest) {
            Some(i) => Some(i + cur.len()),
            None => None::<int>,
        },
    decreases cur.len(),
{
    if cur.len() == 0 {
        assert(cur + rest =~= rest);
    } else {
        assert((cur + rest)[0] == cur[0]);
        assert((cur + rest).skip(1) =~= cur.skip(1) + rest);
        lemma_find_blank_concat(cur.skip(1), rest);
    }
}

/// Splits the lines into blank-line-delimited blocks.
pub fn split_blocks(lines: Vec<String>) -> (r: Vec<Vec<String>>)
    ensures
        r.deep_view() == spec_blocks(lines.deep_view()),
{
    let ghost lv = lines.deep_view();
    let mut out: Vec<Vec<String>> = Vec::new();
    let mut cur: Vec<String> = Vec::new();
    let mut i: usize = 0;
    proof {
        assert(cur.deep_view() + lv.skip(0) =~= lv);
        assert(out.deep_view() + spec_blocks(lv) =~= spec_blocks(lv));
    }
    while i < lines.len()
        invariant
            0 <= i <= lines.len(),
            lv == lines.deep_view(),
            forall|j: int| 0 <= j < cur.deep_view().len() ==> cur.deep_view()[j].len() > 0,
            spec_blocks(lv) == out.deep_view() + spec_blocks(
                cur.deep_view() + lv.skip(i as int),
            ),
        decreases lines.len() - i,
    {
        let ghost rest = lv.skip(i as int);
        let ghost cur_dv = cur.deep_view();
        let ghost out_dv = out.deep_view();
        proof {
            assert(rest[0] == lv[i as int]);
            assert(rest.skip(1) =~= lv.skip(i + 1));
        }
        if lines[i].as_str().is_empty() {
            proof {
                lemma_find_blank_concat(cur_dv, rest);
                assert(spec_find_blank(rest) == Some(0int));
                assert((cur_dv + rest).take(cur_dv.len() as int) =~= cur_dv);
                assert((cur_dv + rest).skip(cur_dv.len() as int + 1) =~= lv.skip(i + 1));
            }
            out.push(cur);
            cur = Vec::new();
            proof {
                assert(out.deep_view() =~= out_dv + seq![cur_dv]);
                assert(cur.deep_view() + lv.skip(i + 1) =~= lv.skip(i + 1));
                assert(out_dv + (seq![cur_dv] + spec_blocks(lv.skip(i + 1))) =~= (out_dv + seq![
                    cur_dv,
                ]) + spec_blocks(lv.skip(i + 1)));
            }
        } else {
            cur.push(lines[i].clone());
            proof {
                assert(cur.deep_view() =~= cur_dv.push(lv[i as int]));
                assert(cur.deep_view() + lv.skip(i + 1) =~= cur_dv + rest);
            }
        }
        i = i + 1;
    }
    proof {
        assert(lv.skip(lines.len() as int) =~= Seq::<Seq<char>>::empty());
        assert(cur.deep_view() + Seq::<Seq<char>>::empty() =~= cur.deep_view());
        lemma_find_blank_concat(cur.deep_view(), Seq::empty());
        assert(spec_find_blank(Seq::<Seq<char>>::empty()) is None);
    }
    let ghost out_dv = out.deep_view();
    let ghost cur_dv = cur.deep_view();
    out.push(cur);
    proof {
        assert(out.deep_view() =~= out_dv + seq![cur_dv]);
    }
    out
}

/// What one citation block yields: its merged lines mapped to typed fields
/// and reduced, or the block's first structural error.
pub open spec fn spec_process_block(block: Seq<Seq<char>>) -> Result<Seq<CSLValueView>, NbibError> {
    match spec_merge(block) {
        Err(e) => Err(e),
        Ok(merged) => match spec_medline_to_csl(merged) {
            Err(e) => Err(e),
            Ok(vals) => Ok(spec_reduce(vals)),
        },
    }
}

/// The citation records of a sequence of blocks, or the first block's first
/// structural error.
pub open spec fn spec_pipeline_blocks(blocks: Seq<Seq<Seq<char>>>) -> Result<
    Seq<CSLItemView>,
    NbibError,
>
    decreases blocks.len(),
{
    if blocks.len() == 0 {
        Ok(Seq::empty())
    } else {
        match spec_process_block(blocks[0]) {
            Err(e) => Err(e),
            Ok(vals) => match spec_pipeline_blocks(blocks.skip(1)) {
                Err(e) => Err(e),
                Ok(rest) => Ok(seq![spec_fold_item(vals)] + rest),
            },
        }
    }
}

/// The citation records of a whole input text: its lines, split into
/// blank-line-delimited blocks, each block merged, mapped, reduced and
/// assembled; or the first structural error.
pub open spec fn spec_nbib_to_csl_items(input: Seq<char>) -> Result<Seq<CSLItemView>, NbibError> {
    spec_pipeline_blocks(spec_blocks(spec_lines(input)))
}

/// Converts a whole nbib text into its citation records, one per
/// blank-line-delimited block, or reports the first structural error.
pub fn nbib_to_csl_items(input: &str) -> (r: Result<Vec<CSLItem>, NbibError>)
    ensures
        res_view(r) == spec_nbib_to_csl_items(input@),
{
    let lines = split_lines(input);
    let mut blocks = split_blocks(lines);
    let ghost bv = blocks.deep_view();
    let mut recs: Vec<Vec<CSLValue>> = Vec::new();
    proof {
        assert(bv == spec_blocks(spec_lines(input@)));
        assert(spec_nbib_to_csl_items(input@) == spec_pipeline_blocks(bv));
        assert(blocks.deep_view() =~= bv.skip(0));
        if spec_pipeline_blocks(bv) is Ok {
            assert(spec_into_csl_items(recs.deep_view()) + spec_pipeline_blocks(bv)->Ok_0
                =~= spec_pipeline_blocks(bv)->Ok_0);
        }
    }
    while blocks.len() > 0
        invariant
            spec_nbib_to_csl_items(input@) == spec_pipeline_blocks(bv),
            recs.len() + blocks.len() == bv.len(),
            blocks.deep_view() == bv.skip(recs.len() as int),
            spec_pipeline_blocks(bv) == match spec_pipeline_blocks(bv.skip(recs.len() as int)) {
                Err(e) => Err(e),
                Ok(rest) => Ok(spec_into_csl_items(recs.deep_view()) + rest),
            },
        decreases blocks.len(),
    {
        let ghost i = recs.len() as int;
        let ghost before_items = blocks@;
        let ghost before_dv = blocks.deep_view();
        let block = blocks.remove(0);
        proof {
            assert(block.deep_view() == bv.skip(i)[0]);
            assert(block.deep_view() == bv[i]);
            assert(blocks@ =~= before_items.skip(1));
            assert forall|j: int| 0 <= j < blocks.deep_view().len() implies blocks.deep_view()[j]
                == bv.skip(i + 1)[j] by {
                assert(blocks@[j] == before_items[j + 1]);
                assert(before_dv[j + 1] == bv.skip(i)[j + 1]);
            }
            assert(blocks.deep_view() =~= bv.skip(i + 1));
            assert(bv.skip(i).skip(1) =~= bv.skip(i + 1));
        }
        let merged = match merge_multiline_items(block) {
            Ok(m) => m,
            Err(e) => {
                proof {
                    assert(spec_merge(bv[i]) == Err::<Seq<Seq<char>>, NbibError>(e));
                    assert(spec_process_block(bv[i]) == Err::<Seq<CSLValueView>, NbibError>(e));
                    assert(spec_pipeline_blocks(bv.skip(i)) == Err::<Seq<CSLItemView>, NbibError>(
                        e,
                    ));
                    assert(spec_pipeline_blocks(bv) == Err::<Seq<CSLItemView>, NbibError>(e));
                }
                return Err(e);
            },
        };
        let vals = match medline_to_csl(merged) {
            Ok(v) => v,
            Err(e) => {
                proof {
                    assert(spec_medline_to_csl(merged.deep_view()) == Err::<
                        Seq<CSLValueView>,
                        NbibError,
                    >(e));
                    assert(spec_process_block(bv[i]) == Err::<Seq<CSLValueView>, NbibError>(e));
                    assert(spec_pipeline_blocks(bv.skip(i)) == Err::<Seq<CSLItemView>, NbibError>(
                        e,
                    ));
                    assert(spec_pipeline_blocks(bv) == Err::<Seq<CSLItemView>, NbibError>(e));
                }
                return Err(e);
            },
        };
        let reduced = reduce_authors(vals);
        let ghost recs_dv = recs.deep_view();
        recs.push(reduced);
        proof {
            assert(spec_into_csl_items(recs.deep_view()) =~= spec_into_csl_items(recs_dv) + seq![
                spec_fold_item(reduced.deep_view()),
            ]);
            let rest0 = spec_pipeline_blocks(bv.skip(i + 1));
            if rest0 is Ok {
                assert(spec_into_csl_items(recs_dv) + (seq![spec_fold_item(reduced.deep_view())]
                    + rest0->Ok_0) =~= (spec_into_csl_items(recs_dv) + seq![spec_fold_item(
                    reduced.deep_view(),
                )]) + rest0->Ok_0);
            }
        }
    }
    proof {
        assert(bv.skip(recs.len() as int) =~= Seq::<Seq<Seq<char>>>::empty());
        assert(spec_into_csl_items(recs.deep_view()) + Seq::<CSLItemView>::empty()
            =~= spec_into_csl_items(recs.deep_view()));
    }
    Ok(into_csl_items(recs))
}

} // verus!
