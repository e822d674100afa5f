use vstd::prelude::*;
use vstd::string::*;

use crate::groupby::GroupByItr;
use crate::strutil::{
    first_token, join_space, spec_first_token, spec_join_space, spec_trim, spec_trim_end, str_eq,
    trim, trim_end,
};
use crate::tags::{process_tag, spec_process_tag};
use crate::types::{CSLItem, CSLItemView, CSLValue, CSLValueView};
use crate::{res_view, NbibError};

verus! {

// ---------------------------------------------------------------------------
// Continuation merging
// ---------------------------------------------------------------------------

/// What flushing the continuation buffer emits: nothing for an empty buffer,
/// otherwise one line, the buffered lines joined with single spaces.
pub open spec fn spec_flush(buf: Seq<Seq<char>>) -> Seq<Seq<char>> {
    if buf.len() == 0 {
        Seq::empty()
    } else {
        seq![spec_join_space(buf)]
    }
}

/// One step of the continuation-merge state machine: the buffer before the
/// line, and the line, give the buffer after it and what it emits, or a
/// structural error.  A line of four characters or fewer is malformed; a line
/// with the separator at index four starts a new field and flushes the
/// buffer; any other line is a continuation and needs an open field.
pub open spec fn spec_feed(buf: Seq<Seq<char>>, line: Seq<char>) -> Result<
    (Seq<Seq<char>>, Seq<Seq<char>>),
    NbibError,
> {
    if line.len() <= 4 {
        Err(NbibError::MalformedLine)
    } else if line[4] == '-' {
        Ok((seq![spec_trim(line)], spec_flush(buf)))
    } else if buf.len() == 0 {
        Err(NbibError::InvalidState)
    } else {
        Ok((buf.push(spec_trim(line)), Seq::empty()))
    }
}

/// The merged logical lines that `lines` produce when scanned with an
/// initial buffer `buf`, ending with a final flush.
pub open spec fn spec_merge_from(lines: Seq<Seq<char>>, buf: Seq<Seq<char>>) -> Result<
    Seq<Seq<char>>,
    NbibError,
>
    decreases lines.len(),
{
    if lines.len() == 0 {
        Ok(spec_flush(buf))
    } else {
        match spec_feed(buf, lines[0]) {
            Err(e) => Err(e),
            Ok((buf2, out)) => match spec_merge_from(lines.skip(1), buf2) {
                Err(e) => Err(e),
                Ok(rest) => Ok(out + rest),
            },
        }
    }
}

/// The merged logical lines of one citation block: each tagged line together
/// with its indented continuations becomes one trimmed, space-joined line.
pub open spec fn spec_merge(lines: Seq<Seq<char>>) -> Result<Seq<Seq<char>>, NbibError> {
    spec_merge_from(lines, Seq::empty())
}

/// The continuation-merge scanner: holds the trimmed raw lines of the field
/// currently being accumulated.
pub struct MergeMultiline {
    /// The pending buffer of the field being accumulated.
    pub buf: Vec<String>,
}

impl View for MergeMultiline {
    type V = Seq<Seq<char>>;

    open spec fn view(&self) -> Seq<Seq<char>> {
        self.buf.deep_view()
    }
}

impl MergeMultiline {
    /// A scanner with no open field.
    pub fn new() -> (r: MergeMultiline)
        ensures
            r@ == Seq::<Seq<char>>::empty(),
    {
        MergeMultiline { buf: Vec::new() }
    }

    /// Scans one raw line, emitting the previous field's merged line when
    /// this line starts a new field.
    pub fn feed(&mut self, line: &str) -> (r: Result<Option<String>, NbibError>)
        ensures
            match r {
                Err(e) => spec_feed(old(self)@, line@) == Err::<
                    (Seq<Seq<char>>, Seq<Seq<char>>),
                    NbibError,
                >(e) && final(self)@ == old(self)@,
                Ok(out) => spec_feed(old(self)@, line@) == Ok::<
                    (Seq<Seq<char>>, Seq<Seq<char>>),
                    NbibError,
                >((final(self)@, opt_line(out.deep_view()))),
            },
    {
        let n = line.unicode_len();
        if n <= 4 {
            return Err(NbibError::MalformedLine);
        }
        if line.get_char(4) == '-' {
            let out: Option<String> = if self.buf.len() == 0 {
                None
            } else {
                Some(join_space(&self.buf))
            };
            self.buf = Vec::new();
            self.buf.push(trim(line));
            proof {
                assert(self@ =~= seq![spec_trim(line@)]);
            }
            Ok(out)
        } else if self.buf.len() == 0 {
            Err(NbibError::InvalidState)
        } else {
            let t = trim(line);
            self.buf.push(t);
            proof {
                assert(self@ =~= old(self)@.push(spec_trim(line@)));
            }
            Ok(None)
        }
    }

    /// Ends the scan, emitting the last field's merged line if one is open.
    pub fn finish(&mut self) -> (r: Option<String>)
        ensures
            opt_line(r.deep_view()) == spec_flush(old(self)@),
            final(self)@ == Seq::<Seq<char>>::empty(),
    {
        let r: Option<String> = if self.buf.len() == 0 {
            None
        } else {
            Some(join_space(&self.buf))
        };
        self.buf = Vec::new();
        r
    }
}

/// The lines an optional emitted line stands for: none, or that one line.
pub open spec fn opt_line(o: Option<Seq<char>>) -> Seq<Seq<char>> {
    match o {
        Some(s) => seq![s],
        None => Seq::empty(),
    }
}

/// Merges indented continuation lines into their preceding tagged lines,
/// yielding one trimmed, space-joined logical line per field occurrence.
pub fn merge_multiline_items(lines: Vec<String>) -> (r: Result<Vec<String>, NbibError>)
    ensures
        res_view(r) == spec_merge(lines.deep_view()),
{
    let ghost lv = lines.deep_view();
    let mut scanner = MergeMultiline::new();
    let mut out: Vec<String> = Vec::new();
    let mut i: usize = 0;
    proof {
        assert(lv.skip(0) =~= lv);
        assert(out.deep_view() =~= Seq::<Seq<char>>::empty());
        if spec_merge_from(lv, scanner@) is Ok {
            assert(out.deep_view() + spec_merge_from(lv, scanner@)->Ok_0 =~= spec_merge_from(
                lv,
                scanner@,
            )->Ok_0);
        }
    }
    while i < lines.len()
        invariant
            0 <= i <= lines.len(),
            lv == lines.deep_view(),
            spec_merge(lv) == match spec_merge_from(lv.skip(i as int), scanner@) {
                Ok(rest) => Ok(out.deep_view() + rest),
                Err(e) => Err(e),
            },
        decreases lines.len() - i,
    {
        proof {
            assert(lv.skip(i as int)[0] == lv[i as int]);
            assert(lv.skip(i as int).skip(1) =~= lv.skip(i + 1));
        }
        match scanner.feed(lines[i].as_str()) {
            Err(e) => {
                return Err(e);
            },
            Ok(emitted) => {
                let ghost out_before = out.deep_view();
                let ghost em = emitted.deep_view();
                match emitted {
                    Some(s) => {
                        out.push(s);
                    },
                    None => {},
                }
                proof {
                    assert(out.deep_view() =~= out_before + opt_line(em));
                    let rest0 = spec_merge_from(lv.skip(i + 1), scanner@);
                    if rest0 is Ok {
                        assert(out_before + (opt_line(em) + rest0->Ok_0) =~= (out_before
                            + opt_line(em)) + rest0->Ok_0);
                    }
                }
            },
        }
        i = i + 1;
    }
    proof {
        assert(lv.skip(lines.len() as int) =~= Seq::<Seq<char>>::empty());
    }
    let ghost out_before = out.deep_view();
    let tail = scanner.finish();
    let ghost tl = tail.deep_view();
    match tail {
        Some(s) => {
            out.push(s);
        },
        None => {},
    }
    proof {
        assert(out.deep_view() =~= out_before + opt_line(tl));
    }
    Ok(out)
}

// ---------------------------------------------------------------------------
// Tag mapping over a block's merged lines
// ---------------------------------------------------------------------------

/// The typed field one merged logical line maps to.  The line must be at
/// least seven characters with the separator at index four; its tag is the
/// first four characters right-trimmed, its value everything from index six.
pub open spec fn spec_line_to_csl(line: Seq<char>) -> Result<CSLValueView, NbibError> {
    if line.len() < 7 {
        Err(NbibError::MalformedRecord)
    } else if line[4] != '-' {
        Err(NbibError::MalformedRecord)
    } else {
        spec_process_tag(spec_trim_end(line.take(4)), line.skip(6))
    }
}

/// The typed fields of a block's merged lines, in order, with ignored
/// values dropped; the first structural error aborts the block.
pub open spec fn spec_medline_to_csl(lines: Seq<Seq<char>>) -> Result<
    Seq<CSLValueView>,
    NbibError,
>
    decreases lines.len(),
{
    if lines.len() == 0 {
        Ok(Seq::empty())
    } else {
        match spec_line_to_csl(lines[0]) {
            Err(e) => Err(e),
            Ok(v) => match spec_medline_to_csl(lines.skip(1)) {
                Err(e) => Err(e),
                Ok(rest) => Ok(
                    if v is Ignored {
                        rest
                    } else {
                        seq![v] + rest
                    },
                ),
            },
        }
    }
}

/// Maps each merged logical line of one citation block to its typed field,
/// dropping ignored values; the first structural error aborts the block.
pub fn medline_to_csl(lines: Vec<String>) -> (r: Result<Vec<CSLValue>, NbibError>)
    ensures
        res_view(r) == spec_medline_to_csl(lines.deep_view()),
{
    let ghost lv = lines.deep_view();
    let mut out: Vec<CSLValue> = Vec::new();
    let mut i: usize = 0;
    proof {
        assert(lv.skip(0) =~= lv);
        if spec_medline_to_csl(lv) is Ok {
            assert(out.deep_view() + spec_medline_to_csl(lv)->Ok_0 =~= spec_medline_to_csl(
                lv,
            )->Ok_0);
        }
    }
    while i < lines.len()
        invariant
            0 <= i <= lines.len(),
            lv == lines.deep_view(),
            spec_medline_to_csl(lv) == match spec_medline_to_csl(lv.skip(i as int)) {
                Ok(rest) => Ok(out.deep_view() + rest),
                Err(e) => Err(e),
            },
        decreases lines.len() - i,
    {
        proof {
            assert(lv.skip(i as int)[0] == lv[i as int]);
            assert(lv.skip(i as int).skip(1) =~= lv.skip(i + 1));
        }
        let line = &lines[i];
        let n = line.as_str().unicode_len();
        if n < 7 {
            return Err(NbibError::MalformedRecord);
        }
        if line.as_str().get_char(4) != '-' {
            return Err(NbibError::MalformedRecord);
        }
        let key = trim_end(line.as_str().substring_char(0, 4));
        let value = line.as_str().substring_char(6, n).to_owned();
        proof {
            assert(line@.subrange(0, 4) =~= line@.take(4));
            assert(line@.subrange(6, n as int) =~= line@.skip(6));
        }
        match process_tag(key, value) {
            Err(e) => {
                return Err(e);
            },
            Ok(v) => {
                let ghost out_before = out.deep_view();
                let ghost vv = v@;
                match v {
                    CSLValue::Ignored => {},
                    other => {
                        out.push(other);
                    },
                }
                proof {
                    if vv is Ignored {
                        assert(out.deep_view() =~= out_before);
                    } else {
                        assert(out.deep_view() =~= out_before + seq![vv]);
                    }
                    let rest0 = spec_medline_to_csl(lv.skip(i + 1));
                    if rest0 is Ok {
                        assert(out_before + (seq![vv] + rest0->Ok_0) =~= (out_before + seq![vv])
                            + rest0->Ok_0);
                    }
                }
            },
        }
        i = i + 1;
    }
    proof {
        assert(lv.skip(lines.len() as int) =~= Seq::<Seq<char>>::empty());
        assert(out.deep_view() + Seq::<CSLValueView>::empty() =~= out.deep_view());
    }
    Ok(out)
}

// ---------------------------------------------------------------------------
// Author/editor reduction
// ---------------------------------------------------------------------------

/// Whether two adjacent fields are name fields with the same output key:
/// the outer grouping predicate of the reducer.
pub open spec fn same_key_names(a: CSLValueView, b: CSLValueView) -> bool {
    a.is_name() && b.is_name() && a.key() == b.key()
}

/// The first space-delimited token of a field's family name, for a name
/// field that has one.
pub open spec fn family_token(v: CSLValueView) -> Option<Seq<char>> {
    match v.np() {
        Some(np) => match np.family {
            Some(f) => Some(spec_first_token(f)),
            None => None,
        },
        None => None,
    }
}

/// Whether two adjacent fields are name fields whose family names share
/// their first space-delimited token: the inner grouping predicate.
pub open spec fn same_family_names(a: CSLValueView, b: CSLValueView) -> bool {
    a.is_name() && b.is_name() && family_token(a) == family_token(b)
}

/// Whether the right field duplicates its immediate left neighbour: both
/// are name fields with the same key and the same first family-name token.
pub open spec fn dup_of(a: CSLValueView, b: CSLValueView) -> bool {
    same_key_names(a, b) && same_family_names(a, b)
}

/// The reduced field sequence: every field except those that duplicate
/// their immediate left neighbour.
pub open spec fn spec_reduce(s: Seq<CSLValueView>) -> Seq<CSLValueView>
    decreases s.len(),
{
    if s.len() <= 1 {
        s
    } else {
        spec_reduce(s.take(s.len() - 1)) + if dup_of(s[s.len() - 2], s[s.len() - 1]) {
            Seq::empty()
        } else {
            seq![s[s.len() - 1]]
        }
    }
}

/// Reduction distributes over a split whose right part does not begin with
/// a duplicate of the left part's last field.
pub proof fn lemma_reduce_split(a: Seq<CSLValueView>, b: Seq<CSLValueView>)
    requires
        a.len() == 0 || b.len() == 0 || !dup_of(a[a.len() - 1], b[0]),
    ensures
        spec_reduce(a + b) == spec_reduce(a) + spec_reduce(b),
    decreases b.len(),
{
    let ab = a + b;
    if b.len() == 0 {
        assert(ab =~= a);
        assert(spec_reduce(a) + spec_reduce(b) =~= spec_reduce(a));
    } else if a.len() == 0 {
        assert(ab =~= b);
        assert(spec_reduce(a) + spec_reduce(b) =~= spec_reduce(b));
    } else if b.len() == 1 {
        assert(ab.take(ab.len() - 1) =~= a);
        assert(ab[ab.len() - 2] == a[a.len() - 1]);
        assert(ab[ab.len() - 1] == b[0]);
        assert(spec_reduce(b) == b);
        assert(seq![ab[ab.len() - 1]] =~= b);
    } else {
        lemma_reduce_split(a, b.take(b.len() - 1));
        assert(ab.take(ab.len() - 1) =~= a + b.take(b.len() - 1));
        assert(ab[ab.len() - 2] == b[b.len() - 2]);
        assert(ab[ab.len() - 1] == b[b.len() - 1]);
        assert(b.take(b.len() - 1)[0] == b[0]);
        if dup_of(b[b.len() - 2], b[b.len() - 1]) {
            assert(spec_reduce(ab) + Seq::<CSLValueView>::empty() =~= spec_reduce(ab));
            assert(spec_reduce(b.take(b.len() - 1)) + Seq::<CSLValueView>::empty()
                =~= spec_reduce(b.take(b.len() - 1)));
        } else {
            assert((spec_reduce(a) + spec_reduce(b.take(b.len() - 1))) + seq![b[b.len() - 1]]
                =~= spec_reduce(a) + (spec_reduce(b.take(b.len() - 1)) + seq![b[b.len() - 1]]));
        }
    }
}

/// A run in which every field duplicates its immediate left neighbour
/// reduces to its first field alone.
pub proof fn lemma_reduce_chain(r: Seq<CSLValueView>)
    requires
        r.len() >= 1,
        forall|j: int| 0 < j < r.len() ==> dup_of(r[j - 1], #[trigger] r[j]),
    ensures
        spec_reduce(r) == seq![r[0]],
    decreases r.len(),
{
    if r.len() == 1 {
        assert(r =~= seq![r[0]]);
    } else {
        let t = r.take(r.len() - 1);
        assert(forall|j: int| 0 < j < t.len() ==> dup_of(t[j - 1], #[trigger] t[j]));
        lemma_reduce_chain(t);
        assert(dup_of(r[r.len() - 2], r[r.len() - 1]));
        assert(seq![t[0]] + Seq::<CSLValueView>::empty() =~= seq![t[0]]);
    }
}

/// The models of a sequence of fields.
pub open spec fn views_of(s: Seq<CSLValue>) -> Seq<CSLValueView> {
    Seq::new(s.len(), |i: int| s[i]@)
}

/// Whether two fields have the same key.
fn key_eq(a: &CSLValue, b: &CSLValue) -> (r: bool)
    ensures
        r == (a@.key() == b@.key()),
{
    match (a.key(), b.key()) {
        (Some(x), Some(y)) => str_eq(x, y),
        (None, None) => true,
        _ => false,
    }
}

/// The first space-delimited token of a field's family name, if any.
fn fam_token(v: &CSLValue) -> (r: Option<String>)
    ensures
        r.deep_view() == family_token(v@),
{
    match v {
        CSLValue::CSLNameField(f) => match &f.np.family {
            Some(fam) => Some(first_token(fam.as_str())),
            None => None,
        },
        _ => None,
    }
}

/// Whether two fields' family names share their first token.
fn fam_token_eq(a: &CSLValue, b: &CSLValue) -> (r: bool)
    ensures
        r == (family_token(a@) == family_token(b@)),
{
    let at = fam_token(a);
    let bt = fam_token(b);
    match (at, bt) {
        (Some(x), Some(y)) => str_eq(x.as_str(), y.as_str()),
        (None, None) => true,
        _ => false,
    }
}

/// Drops every name field that duplicates the name field immediately before
/// it: the fields are grouped into runs of name fields sharing one key, each
/// run is regrouped into runs sharing the first family-name token, and only
/// the first field of each inner run is kept.  Fields of other kinds pass
/// through unchanged, in their original positions.
#[verifier::rlimit(60)]
pub fn reduce_authors(fields: Vec<CSLValue>) -> (r: Vec<CSLValue>)
    ensures
        r.deep_view() == spec_reduce(fields.deep_view()),
{
    let ghost orig = fields.deep_view();
    let pred1 = |a: &CSLValue, b: &CSLValue| -> (res: bool)
        ensures
            res == same_key_names(a@, b@),
        {
            let names = a.is_name() && b.is_name();
            names && key_eq(a, b)
        };
    let pred2 = |a: &CSLValue, b: &CSLValue| -> (res: bool)
        ensures
            res == same_family_names(a@, b@),
        {
            let names = a.is_name() && b.is_name();
            names && fam_token_eq(a, b)
        };
    let mut outer = fields.group_by(pred1);
    let mut out: Vec<CSLValue> = Vec::new();
    proof {
        assert(views_of(outer.items@) =~= orig);
        assert(out.deep_view() + spec_reduce(orig) =~= spec_reduce(orig));
    }
    loop
        invariant_except_break
            forall|a: &CSLValue, b: &CSLValue| #[trigger] call_requires(pred1, (a, b)),
            forall|a: &CSLValue, b: &CSLValue| #[trigger] call_requires(pred2, (a, b)),
            forall|a: &CSLValue, b: &CSLValue, res: bool|
                #[trigger] call_ensures(pred1, (a, b), res) ==> res == same_key_names(a@, b@),
            forall|a: &CSLValue, b: &CSLValue, res: bool|
                #[trigger] call_ensures(pred2, (a, b), res) ==> res == same_family_names(a@, b@),
            outer.pred == pred1,
            spec_reduce(orig) == out.deep_view() + spec_reduce(views_of(outer.items@)),
        ensures
            spec_reduce(orig) == out.deep_view(),
        decreases outer.items@.len(),
    {
        let ghost before = views_of(outer.items@);
        let ghost out_at_g = out.deep_view();
        let gopt = outer.next();
        match gopt {
            None => {
                proof {
                    assert(before =~= Seq::<CSLValueView>::empty());
                    assert(out.deep_view() + spec_reduce(before) =~= out.deep_view());
                }
                break;
            },
            Some(g) => {
                let ghost gv = views_of(g@);
                let ghost remv = views_of(outer.items@);
                proof {
                    assert(before =~= gv + remv);
                    if outer.items@.len() > 0 {
                        assert(call_ensures(pred1, (&g@[g@.len() - 1], &outer.items@[0]), false));
                        assert(!dup_of(gv[gv.len() - 1], remv[0]));
                    }
                    lemma_reduce_split(gv, remv);
                    assert forall|j: int| 0 < j < gv.len() implies same_key_names(
                        gv[j - 1],
                        #[trigger] gv[j],
                    ) by {
                        assert(call_ensures(pred1, (&g@[j - 1], &g@[j]), true));
                    }
                }
                let mut inner = g.group_by(pred2);
                let ghost mut done: Seq<CSLValueView> = Seq::empty();
                proof {
                    assert(views_of(inner.items@) =~= gv);
                    assert(done + views_of(inner.items@) =~= gv);
                    assert(out.deep_view() + spec_reduce(done) =~= out.deep_view());
                }
                loop
                    invariant_except_break
                        forall|a: &CSLValue, b: &CSLValue| #[trigger] call_requires(
                            pred2,
                            (a, b),
                        ),
                        forall|a: &CSLValue, b: &CSLValue, res: bool|
                            #[trigger] call_ensures(pred2, (a, b), res) ==> res
                                == same_family_names(a@, b@),
                        inner.pred == pred2,
                        gv == done + views_of(inner.items@),
                        out.deep_view() == out_at_g + spec_reduce(done),
                        inner.items@.len() > 0 && done.len() > 0 ==> !dup_of(
                            done[done.len() - 1],
                            views_of(inner.items@)[0],
                        ),
                        forall|j: int| 0 < j < gv.len() ==> same_key_names(
                            gv[j - 1],
                            #[trigger] gv[j],
                        ),
                    ensures
                        out.deep_view() == out_at_g + spec_reduce(gv),
                    decreases inner.items@.len(),
                {
                    let ghost inner_before = views_of(inner.items@);
                    let hopt = inner.next();
                    match hopt {
                        None => {
                            proof {
                                assert(inner_before =~= Seq::<CSLValueView>::empty());
                                assert(done =~= gv);
                            }
                            break;
                        },
                        Some(h) => {
                            let ghost horig = h@;
                            let ghost hv = views_of(h@);
                            let ghost rem2 = views_of(inner.items@);
                            proof {
                                assert(inner_before =~= hv + rem2);
                                assert(gv =~= (done + hv) + rem2);
                                assert(gv =~= done + (hv + rem2));
                                assert forall|j: int| 0 < j < hv.len() implies dup_of(
                                    hv[j - 1],
                                    #[trigger] hv[j],
                                ) by {
                                    assert(call_ensures(pred2, (&horig[j - 1], &horig[j]), true));
                                    assert(hv[j] == gv[done.len() + j]);
                                    assert(hv[j - 1] == gv[done.len() + j - 1]);
                                    assert(same_key_names(
                                        gv[done.len() + j - 1],
                                        gv[done.len() + j],
                                    ));
                                }
                                lemma_reduce_chain(hv);
                                lemma_reduce_split(done, hv);
                            }
                            let mut h = h;
                            let first = h.remove(0);
                            out.push(first);
                            proof {
                                assert(first@ == hv[0]);
                                assert(out.deep_view() =~= (out_at_g + spec_reduce(done)) + seq![
                                    hv[0],
                                ]);
                                assert((out_at_g + spec_reduce(done)) + seq![hv[0]] =~= out_at_g
                                    + (spec_reduce(done) + seq![hv[0]]));
                                if inner.items@.len() > 0 {
                                    assert(call_ensures(
                                        pred2,
                                        (&horig[horig.len() - 1], &inner.items@[0]),
                                        false,
                                    ));
                                    assert(!dup_of(hv[hv.len() - 1], rem2[0]));
                                }
                                done = done + hv;
                                assert(done[done.len() - 1] == hv[hv.len() - 1]);
                            }
                        },
                    }
                }
                proof {
                    assert(out_at_g + (spec_reduce(gv) + spec_reduce(remv)) =~= (out_at_g
                        + spec_reduce(gv)) + spec_reduce(remv));
                }
            },
        }
    }
    out
}

// ---------------------------------------------------------------------------
// Citation assembly
// ---------------------------------------------------------------------------

/// The record one block's reduced field sequence folds into: each field
/// dispatched to the slot of its kind, arrival order kept within each slot,
/// ignored values dropped.
pub open spec fn spec_fold_item(rec: Seq<CSLValueView>) -> CSLItemView
    decreases rec.len(),
{
    if rec.len() == 0 {
        CSLItemView { fields: Seq::empty(), names: Seq::empty(), dates: Seq::empty() }
    } else {
        let prev = spec_fold_item(rec.take(rec.len() - 1));
        match rec[rec.len() - 1] {
            CSLValueView::Ignored => prev,
            CSLValueView::Ordinary(f) => CSLItemView {
                fields: prev.fields.push(f),
                names: prev.names,
                dates: prev.dates,
            },
            CSLValueView::Name(f) => CSLItemView {
                fields: prev.fields,
                names: prev.names.push(f),
                dates: prev.dates,
            },
            CSLValueView::Date(f) => CSLItemView {
                fields: prev.fields,
                names: prev.names,
                dates: prev.dates.push(f),
            },
        }
    }
}

/// The records of a sequence of blocks, one per block.
pub open spec fn spec_into_csl_items(recs: Seq<Seq<CSLValueView>>) -> Seq<CSLItemView> {
    Seq::new(recs.len(), |i: int| spec_fold_item(recs[i]))
}

/// Folds one block's field sequence into a citation record.
fn fold_record(rec: Vec<CSLValue>) -> (r: CSLItem)
    ensures
        r@ == spec_fold_item(rec.deep_view()),
{
    let ghost rv = rec.deep_view();
    let mut rec = rec;
    let mut item = CSLItem::new();
    let ghost mut i: int = 0;
    proof {
        assert(item@ =~= spec_fold_item(rv.take(0)));
        assert(rec.deep_view() =~= rv.skip(0));
    }
    while rec.len() > 0
        invariant
            0 <= i <= rv.len(),
            rec.deep_view() == rv.skip(i),
            rec.len() == rv.len() - i,
            item@ == spec_fold_item(rv.take(i)),
        decreases rec.len(),
    {
        let ghost before_items = rec@;
        let ghost before_dv = rec.deep_view();
        let v = rec.remove(0);
        proof {
            assert(v@ == rv.skip(i)[0]);
            assert(v@ == rv[i]);
            assert(rec@ =~= before_items.skip(1));
            assert forall|j: int| 0 <= j < rec.deep_view().len() implies rec.deep_view()[j]
                == rv.skip(i + 1)[j] by {
                assert(rec@[j] == before_items[j + 1]);
                assert(before_dv[j + 1] == rv.skip(i)[j + 1]);
            }
            assert(rec.deep_view() =~= rv.skip(i + 1));
            assert(rv.take(i + 1).take(i) =~= rv.take(i));
            assert(rv.take(i + 1)[i] == rv[i]);
        }
        let ghost prev = item@;
        match v {
            CSLValue::Ignored => {},
            CSLValue::CSLOrdinaryField(x) => {
                item.fields.push(x);
            },
            CSLValue::CSLNameField(x) => {
                item.names.push(x);
            },
            CSLValue::CSLDateField(x) => {
                item.dates.push(x);
            },
        }
        proof {
            assert(item@ =~= spec_fold_item(rv.take(i + 1)));
            i = i + 1;
        }
    }
    proof {
        assert(rv.take(rv.len() as int) =~= rv);
    }
    item
}

/// Folds each block's field sequence into its citation record.
pub fn into_csl_items(records: Vec<Vec<CSLValue>>) -> (r: Vec<CSLItem>)
    ensures
        r.deep_view() == spec_into_csl_items(records.deep_view()),
{
    let ghost rv = records.deep_view();
    let mut records = records;
    let mut out: Vec<CSLItem> = Vec::new();
    proof {
        assert(records.deep_view() =~= rv.skip(0));
    }
    while records.len() > 0
        invariant
            out.len() + records.len() == rv.len(),
            records.deep_view() == rv.skip(out.len() as int),
            forall|j: int|
                0 <= j < out.len() ==> out.deep_view()[j] == spec_fold_item(#[trigger] rv[j]),
        decreases records.len(),
    {
        let ghost i = out.len() as int;
        let ghost before_items = records@;
        let ghost before_dv = records.deep_view();
        let rec = records.remove(0);
        proof {
            assert(rec.deep_view() == rv.skip(i)[0]);
            assert(records@ =~= before_items.skip(1));
            assert forall|j: int| 0 <= j < records.deep_view().len() implies records.deep_view()[j]
                == rv.skip(i + 1)[j] by {
                assert(records@[j] == before_items[j + 1]);
                assert(before_dv[j + 1] == rv.skip(i)[j + 1]);
            }
            assert(records.deep_view() =~= rv.skip(i + 1));
        }
        let item = fold_record(rec);
        out.push(item);
    }
    proof {
        assert(out.deep_view() =~= spec_into_csl_items(rv));
    }
    out
}

// ---------------------------------------------------------------------------
// Laws
// ---------------------------------------------------------------------------

/// Continuation merging is idempotent: a sequence of already-merged fields
/// — trimmed single lines, each longer than four characters with the
/// separator at index four — passes through the scanner unchanged.
pub proof fn lemma_merge_idempotent(lines: Seq<Seq<char>>)
    requires
        forall|i: int|
            0 <= i < lines.len() ==> (#[trigger] lines[i]).len() > 4 && lines[i][4] == '-'
                && spec_trim(lines[i]) == lines[i],
    ensures
        spec_merge(lines) == Ok::<Seq<Seq<char>>, NbibError>(lines),
{
    if lines.len() == 0 {
        assert(spec_flush(Seq::empty()) =~= lines);
    } else {
        let l0 = lines[0];
        assert(forall|i: int|
            0 <= i < lines.skip(1).len() ==> (#[trigger] lines.skip(1)[i]).len() > 4
                && lines.skip(1)[i][4] == '-' && spec_trim(lines.skip(1)[i]) == lines.skip(1)[i]);
        lemma_merge_single(lines.skip(1), l0);
        assert(seq![l0] + lines.skip(1) =~= lines);
    }
}

proof fn lemma_merge_single(lines: Seq<Seq<char>>, b: Seq<char>)
    requires
        forall|i: int|
            0 <= i < lines.len() ==> (#[trigger] lines[i]).len() > 4 && lines[i][4] == '-'
                && spec_trim(lines[i]) == lines[i],
    ensures
        spec_merge_from(lines, seq![b]) == Ok::<Seq<Seq<char>>, NbibError>(seq![b] + lines),
    decreases lines.len(),
{
    if lines.len() == 0 {
        assert(spec_join_space(seq![b]) == b);
        assert(spec_flush(seq![b]) =~= seq![b] + lines);
    } else {
        let l0 = lines[0];
        assert(spec_join_space(seq![b]) == b);
        assert(forall|i: int|
            0 <= i < lines.skip(1).len() ==> (#[trigger] lines.skip(1)[i]).len() > 4
                && lines.skip(1)[i][4] == '-' && spec_trim(lines.skip(1)[i]) == lines.skip(1)[i]);
        lemma_merge_single(lines.skip(1), l0);
        assert(seq![b] + (seq![l0] + lines.skip(1)) =~= seq![b] + lines);
    }
}

/// A raw line of length four or fewer is detected: a scan whose earlier
/// lines are well-formed, the first of them starting a field, fails with
/// `MalformedLine` when it reaches the short line.
pub proof fn lemma_short_line_detected(lines: Seq<Seq<char>>, k: int)
    requires
        0 <= k < lines.len(),
        lines[k].len() <= 4,
        forall|j: int| 0 <= j < k ==> (#[trigger] lines[j]).len() > 4,
        k > 0 ==> lines[0][4] == '-',
    ensures
        spec_merge(lines) == Err::<Seq<Seq<char>>, NbibError>(NbibError::MalformedLine),
{
    if k == 0 {
    } else {
        assert(forall|j: int|
            0 <= j < k - 1 ==> (#[trigger] lines.skip(1)[j]).len() > 4);
        assert(lines.skip(1)[k - 1].len() <= 4);
        lemma_short_line_reached(lines.skip(1), seq![spec_trim(lines[0])], k - 1);
    }
}

proof fn lemma_short_line_reached(lines: Seq<Seq<char>>, buf: Seq<Seq<char>>, k: int)
    requires
        buf.len() > 0,
        0 <= k < lines.len(),
        lines[k].len() <= 4,
        forall|j: int| 0 <= j < k ==> (#[trigger] lines[j]).len() > 4,
    ensures
        spec_merge_from(lines, buf) == Err::<Seq<Seq<char>>, NbibError>(NbibError::MalformedLine),
    decreases k,
{
    if k > 0 {
        let l0 = lines[0];
        assert(forall|j: int|
            0 <= j < k - 1 ==> (#[trigger] lines.skip(1)[j]).len() > 4);
        assert(lines.skip(1)[k - 1].len() <= 4);
        if l0[4] == '-' {
            lemma_short_line_reached(lines.skip(1), seq![spec_trim(l0)], k - 1);
        } else {
            lemma_short_line_reached(lines.skip(1), buf.push(spec_trim(l0)), k - 1);
        }
    }
}

/// A merged line that is shorter than seven characters, or whose character
/// at index four is not the separator, is rejected with `MalformedRecord`.
pub proof fn lemma_malformed_record_detected(line: Seq<char>)
    requires
        line.len() < 7 || line[4] != '-',
    ensures
        spec_line_to_csl(line) == Err::<CSLValueView, NbibError>(NbibError::MalformedRecord),
{
}

/// A name field immediately followed by a duplicate — another name field
/// with the same key whose family name shares its first space-delimited
/// token — reduces to the first field alone.
pub proof fn lemma_dedup_pair(a: CSLValueView, b: CSLValueView)
    requires
        a.is_name(),
        b.is_name(),
        a.key() == b.key(),
        family_token(a) == family_token(b),
    ensures
        spec_reduce(seq![a, b]) == seq![a],
{
    let s = seq![a, b];
    assert(s.len() == 2);
    assert(s[0] == a);
    assert(s[1] == b);
    assert(dup_of(s[0], s[1]));
    assert(spec_reduce(s) == spec_reduce(s.take(1)) + Seq::<CSLValueView>::empty());
    assert(s.take(1) =~= seq![a]);
    assert(spec_reduce(seq![a]) == seq![a]);
    assert(seq![a] + Seq::<CSLValueView>::empty() =~= seq![a]);
}

} // verus!
