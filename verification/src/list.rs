//! The list of annotations.
use vstd::prelude::*;

use crate::display::{display_views, opt_idx, DisplayLine, DisplayLineV};
use crate::state::{App, AppV};
use crate::storage::{
    annotation_views, Annotation, AnnotationType, AnnotationV, Side,
};
use crate::text::{lemma_text_order, lemma_text_order_transitive, text_less, text_lt};

verus! {

/// An annotation in the list.
#[derive(Debug)]
pub struct AnnotationListEntry {
    pub id: i64,
    pub file_path: String,
    pub line: u32,
    pub side: Side,
    pub annotation_type: AnnotationType,
    pub content: String,
    /// Its line of the display, if it is shown.
    pub display_idx: Option<usize>,
    pub orphaned: bool,
    pub resolved: bool,
}

/// The value of an [`AnnotationListEntry`].
#[verifier::ext_equal]
pub struct EntryV {
    pub id: i64,
    pub file_path: Seq<char>,
    pub line: u32,
    pub side: Side,
    pub annotation_type: AnnotationType,
    pub content: Seq<char>,
    pub display_idx: Option<int>,
    pub orphaned: bool,
    pub resolved: bool,
}

impl View for AnnotationListEntry {
    type V = EntryV;

    open spec fn view(&self) -> EntryV {
        EntryV {
            id: self.id,
            file_path: self.file_path@,
            line: self.line,
            side: self.side,
            annotation_type: self.annotation_type,
            content: self.content@,
            display_idx: opt_idx(self.display_idx),
            orphaned: self.orphaned,
            resolved: self.resolved,
        }
    }
}

/// The values of a list of entries.
pub open spec fn entry_views(v: Seq<AnnotationListEntry>) -> Seq<EntryV> {
    Seq::new(v.len(), |i: int| v[i]@)
}

/// Where an annotation is shown among the first `n` lines, the last place if
/// there are several, and whether it is orphaned there.
pub open spec fn shown_place(lines: Seq<DisplayLineV>, n: int, id: i64) -> Option<(int, bool)>
    decreases n,
{
    if n <= 0 {
        None
    } else {
        match lines[n - 1] {
            DisplayLineV::Annotation { annotation, orphaned, .. } if annotation.id == id => Some(
                (n - 1, orphaned),
            ),
            _ => shown_place(lines, n - 1, id),
        }
    }
}

/// The entry of an annotation. One that is not shown counts as orphaned.
pub open spec fn entry_for(lines: Seq<DisplayLineV>, a: AnnotationV) -> EntryV {
    let place = shown_place(lines, lines.len() as int, a.id);
    EntryV {
        id: a.id,
        file_path: a.file_path,
        line: a.start_line,
        side: a.side,
        annotation_type: a.annotation_type,
        content: a.content,
        display_idx: match place {
            Some((i, _)) => Some(i),
            None => None,
        },
        orphaned: match place {
            Some((_, orphaned)) => orphaned,
            None => true,
        },
        resolved: a.resolved_at is Some,
    }
}

/// Whether an entry comes before another: by the path, then by the line.
pub open spec fn entry_lt(a: EntryV, b: EntryV) -> bool {
    text_lt(a.file_path, b.file_path) || (a.file_path == b.file_path && a.line < b.line)
}

/// Puts an entry behind those that do not come after it.
pub open spec fn insert_entry(list: Seq<EntryV>, e: EntryV) -> Seq<EntryV>
    decreases list.len(),
{
    if list.len() == 0 || !entry_lt(e, list.last()) {
        list.push(e)
    } else {
        insert_entry(list.drop_last(), e).push(list.last())
    }
}

/// The entries of annotations in their order; those that are equal in it as
/// they were given.
pub open spec fn entries_of(lines: Seq<DisplayLineV>, annotations: Seq<AnnotationV>) -> Seq<EntryV>
    decreases annotations.len(),
{
    if annotations.len() == 0 {
        Seq::empty()
    } else {
        insert_entry(
            entries_of(lines, annotations.drop_last()),
            entry_for(lines, annotations.last()),
        )
    }
}

impl AppV {
    /// The entries of the list of annotations.
    #[verifier::opaque]
    pub open spec fn entries(self) -> Seq<EntryV> {
        entries_of(self.screen.lines, self.annotations)
    }
}

proof fn lemma_insert_entry(list: Seq<EntryV>, e: EntryV, p: int)
    requires
        0 <= p <= list.len(),
        p > 0 ==> !entry_lt(e, list[p - 1]),
        forall|i: int| p <= i < list.len() ==> entry_lt(e, #[trigger] list[i]),
    ensures
        insert_entry(list, e) == list.insert(p, e),
    decreases list.len(),
{
    if list.len() == p {
        assert(list.insert(p, e) =~= list.push(e));
    } else {
        assert(entry_lt(e, list[list.len() - 1]));
        lemma_insert_entry(list.drop_last(), e, p);
        assert(list.insert(p, e) =~= list.drop_last().insert(p, e).push(list.last()));
    }
}

/// There are as many entries as annotations.
pub proof fn lemma_entries_len(lines: Seq<DisplayLineV>, annotations: Seq<AnnotationV>)
    ensures
        entries_of(lines, annotations).len() == annotations.len(),
    decreases annotations.len(),
{
    if annotations.len() > 0 {
        lemma_entries_len(lines, annotations.drop_last());
        lemma_insert_len(
            entries_of(lines, annotations.drop_last()),
            entry_for(lines, annotations.last()),
        );
    }
}

proof fn lemma_insert_len(list: Seq<EntryV>, e: EntryV)
    ensures
        insert_entry(list, e).len() == list.len() + 1,
    decreases list.len(),
{
    if list.len() > 0 && entry_lt(e, list.last()) {
        lemma_insert_len(list.drop_last(), e);
    }
}

/// Where an annotation is shown.
fn find_place(lines: &[DisplayLine], id: i64) -> (r: Option<(usize, bool)>)
    ensures
        match r {
            Some((i, orphaned)) => shown_place(
                display_views(lines@),
                lines@.len() as int,
                id,
            ) == Some((i as int, orphaned)),
            None => shown_place(display_views(lines@), lines@.len() as int, id) is None,
        },
{
    let ghost lv = display_views(lines@);
    let mut n: usize = lines.len();
    while n > 0
        invariant
            n <= lines@.len(),
            lv == display_views(lines@),
            shown_place(lv, lines@.len() as int, id) == shown_place(lv, n as int, id),
        decreases n,
    {
        assert(lv[n - 1] == lines@[n - 1]@);
        if let DisplayLine::Annotation { annotation, orphaned, .. } = &lines[n - 1] {
            if annotation.id == id {
                return Some((n - 1, *orphaned));
            }
        }
        n = n - 1;
    }
    None
}

fn make_entry(lines: &[DisplayLine], a: &Annotation) -> (r: AnnotationListEntry)
    ensures
        r@ == entry_for(display_views(lines@), a@),
{
    let place = find_place(lines, a.id);
    let (display_idx, orphaned) = match place {
        Some((i, orphaned)) => (Some(i), orphaned),
        None => (None, true),
    };
    assert(display_views(lines@).len() == lines@.len());
    AnnotationListEntry {
        id: a.id,
        file_path: a.file_path.clone(),
        line: a.start_line,
        side: a.side,
        annotation_type: a.annotation_type,
        content: a.content.clone(),
        display_idx,
        orphaned,
        resolved: a.resolved_at.is_some(),
    }
}

fn entry_before(a: &AnnotationListEntry, b: &AnnotationListEntry) -> (r: bool)
    ensures
        r == entry_lt(a@, b@),
{
    proof {
        lemma_text_order(a.file_path@, b.file_path@);
    }
    text_less(a.file_path.as_str(), b.file_path.as_str()) || (!text_less(
        b.file_path.as_str(),
        a.file_path.as_str(),
    ) && a.line < b.line)
}

impl App {
    /// The entries of the list of annotations.
    pub fn annotation_list_entries(&self) -> (v: Vec<AnnotationListEntry>)
        ensures
            entry_views(v@) == self@.entries(),
            v@.len() == self@.annotations.len(),
    {
        reveal(App::model);
        reveal(AppV::entries);
        let ghost lv = display_views(self.screen.display_lines@);
        let ghost av = annotation_views(self.all_annotations@);
        let mut v: Vec<AnnotationListEntry> = Vec::new();
        let mut i: usize = 0;
        assert(av.take(0) =~= Seq::empty());
        assert(entry_views(v@) =~= entries_of(lv, av.take(0)));
        while i < self.all_annotations.len()
            invariant
                i <= self.all_annotations@.len(),
                lv == display_views(self.screen.display_lines@),
                av == annotation_views(self.all_annotations@),
                entry_views(v@) == entries_of(lv, av.take(i as int)),
            decreases self.all_annotations@.len() - i,
        {
            let e = make_entry(&self.screen.display_lines, &self.all_annotations[i]);
            let mut p: usize = v.len();
            while p > 0 && entry_before(&e, &v[p - 1])
                invariant
                    p <= v@.len(),
                    forall|k: int| p <= k < v@.len() ==> entry_lt(e@, (#[trigger] v@[k])@),
                decreases p,
            {
                p = p - 1;
            }
            proof {
                assert(av.take(i + 1).drop_last() =~= av.take(i as int));
                assert(av.take(i + 1).last() == self.all_annotations@[i as int]@);
                lemma_insert_entry(entry_views(v@), e@, p as int);
            }
            let ghost before = entry_views(v@);
            let ghost ev = e@;
            v.insert(p, e);
            assert(entry_views(v@) =~= before.insert(p as int, ev));
            i = i + 1;
        }
        proof {
            assert(av.take(i as int) =~= av);
            lemma_entries_len(lv, av);
            assert(entry_views(v@).len() == v@.len());
        }
        v
    }
}

// ---------------------------------------------------------------------------
// Laws
// ---------------------------------------------------------------------------
proof fn lemma_insert_sorted(list: Seq<EntryV>, e: EntryV)
    requires
        forall|i: int, j: int| 0 <= i < j < list.len() ==> !entry_lt(list[j], list[i]),
    ensures
        forall|i: int, j: int|
            0 <= i < j < insert_entry(list, e).len() ==> !entry_lt(
                insert_entry(list, e)[j],
                insert_entry(list, e)[i],
            ),
        forall|i: int|
            0 <= i < insert_entry(list, e).len() ==> (#[trigger] insert_entry(list, e)[i]) == e
                || list.contains(insert_entry(list, e)[i]),
    decreases list.len(),
{
    let now = insert_entry(list, e);
    if list.len() == 0 || !entry_lt(e, list.last()) {
        assert forall|i: int, j: int| 0 <= i < j < now.len() implies !entry_lt(now[j], now[i]) by {
            if j == list.len() && i < list.len() - 1 {
                let last = list[list.len() - 1];
                assert(!entry_lt(last, list[i]));
                if entry_lt(e, list[i]) {
                    lemma_entry_order(e, list[i], last);
                }
            }
        }
        assert forall|i: int| 0 <= i < now.len() implies (#[trigger] now[i]) == e || list.contains(
            now[i],
        ) by {
            if i < list.len() {
                assert(now[i] == list[i]);
            }
        }
    } else {
        let front = list.drop_last();
        lemma_insert_sorted(front, e);
        let before = insert_entry(front, e);
        let last = list.last();
        assert forall|i: int| 0 <= i < now.len() implies (#[trigger] now[i]) == e || list.contains(
            now[i],
        ) by {
            if i < before.len() {
                assert(now[i] == before[i]);
                if front.contains(before[i]) {
                    let k = choose|k: int| 0 <= k < front.len() && front[k] == before[i];
                    assert(list[k] == now[i]);
                }
            } else {
                assert(list[list.len() - 1] == now[i]);
            }
        }
        assert forall|i: int, j: int| 0 <= i < j < now.len() implies !entry_lt(now[j], now[i]) by {
            if j < before.len() {
                assert(now[i] == before[i] && now[j] == before[j]);
            } else {
                assert(now[j] == last);
                assert(now[i] == before[i]);
                if before[i] == e {
                    lemma_entry_asym(e, last);
                } else {
                    let k = choose|k: int| 0 <= k < front.len() && front[k] == before[i];
                    assert(!entry_lt(list[list.len() - 1], list[k]));
                }
            }
        }
    }
}

proof fn lemma_entry_asym(a: EntryV, b: EntryV)
    ensures
        entry_lt(a, b) ==> !entry_lt(b, a),
{
    lemma_text_order(a.file_path, b.file_path);
}

/// If `a` comes before `b`, and `c` does not come before `b`, then `a` comes
/// before `c`.
proof fn lemma_entry_order(a: EntryV, b: EntryV, c: EntryV)
    requires
        entry_lt(a, b),
        !entry_lt(c, b),
    ensures
        entry_lt(a, c),
{
    lemma_text_order(b.file_path, c.file_path);
    lemma_text_order(a.file_path, b.file_path);
    if text_lt(a.file_path, b.file_path) && text_lt(b.file_path, c.file_path) {
        lemma_text_order_transitive(a.file_path, b.file_path, c.file_path);
    }
}

proof fn lemma_insert_keeps(list: Seq<EntryV>, e: EntryV, x: EntryV)
    requires
        x == e || list.contains(x),
    ensures
        insert_entry(list, e).contains(x),
    decreases list.len(),
{
    let now = insert_entry(list, e);
    if list.len() == 0 || !entry_lt(e, list.last()) {
        if x == e {
            assert(now[list.len() as int] == x);
        } else {
            let i = choose|i: int| 0 <= i < list.len() && list[i] == x;
            assert(now[i] == x);
        }
    } else {
        let front = insert_entry(list.drop_last(), e);
        if x == list.last() {
            assert(now[front.len() as int] == x);
        } else {
            if x != e {
                let i = choose|i: int| 0 <= i < list.len() && list[i] == x;
                assert(list.drop_last()[i] == x);
            }
            lemma_insert_keeps(list.drop_last(), e, x);
            let i = choose|i: int| 0 <= i < front.len() && front[i] == x;
            assert(now[i] == x);
        }
    }
}

/// The list has an entry for every annotation and no more, ordered by path and
/// line.
pub proof fn law_entries_sorted(lines: Seq<DisplayLineV>, annotations: Seq<AnnotationV>)
    ensures
        entries_of(lines, annotations).len() == annotations.len(),
        forall|i: int, j: int|
            0 <= i < j < annotations.len() ==> !entry_lt(
                entries_of(lines, annotations)[j],
                entries_of(lines, annotations)[i],
            ),
        forall|i: int|
            0 <= i < annotations.len() ==> entries_of(lines, annotations).contains(
                entry_for(lines, #[trigger] annotations[i]),
            ),
    decreases annotations.len(),
{
    lemma_entries_len(lines, annotations);
    if annotations.len() > 0 {
        law_entries_sorted(lines, annotations.drop_last());
        assert forall|i: int| 0 <= i < annotations.len() implies entries_of(
            lines,
            annotations,
        ).contains(entry_for(lines, #[trigger] annotations[i])) by {
            if i < annotations.len() - 1 {
                assert(annotations.drop_last()[i] == annotations[i]);
            }
            lemma_insert_keeps(
                entries_of(lines, annotations.drop_last()),
                entry_for(lines, annotations.last()),
                entry_for(lines, annotations[i]),
            );
        }
        lemma_entries_len(lines, annotations.drop_last());
        lemma_insert_sorted(
            entries_of(lines, annotations.drop_last()),
            entry_for(lines, annotations.last()),
        );
    }
}

proof fn lemma_shown_place(lines: Seq<DisplayLineV>, n: int, id: i64)
    requires
        0 <= n <= lines.len(),
    ensures
        match shown_place(lines, n, id) {
            Some((i, orphaned)) => {
                &&& 0 <= i < n
                &&& lines[i] matches DisplayLineV::Annotation { annotation, orphaned: o, .. }
                    && annotation.id == id && o == orphaned
            },
            None => forall|k: int|
                0 <= k < n ==> !((#[trigger] lines[k]) matches DisplayLineV::Annotation {
                    annotation,
                    ..
                } && annotation.id == id),
        },
    decreases n,
{
    if n > 0 {
        lemma_shown_place(lines, n - 1, id);
    }
}

/// An entry tells what its annotation says, and where it is in the display: at a
/// line that shows it, or nowhere if no line does. It counts as orphaned exactly if
/// no line shows it or that line says so.
pub proof fn law_entry_place(lines: Seq<DisplayLineV>, a: AnnotationV)
    ensures
        ({
            let e = entry_for(lines, a);
            &&& e.id == a.id
            &&& e.file_path == a.file_path
            &&& e.line == a.start_line
            &&& e.side == a.side
            &&& e.annotation_type == a.annotation_type
            &&& e.content == a.content
            &&& e.resolved <==> a.resolved_at is Some
            &&& match e.display_idx {
                Some(i) => 0 <= i < lines.len() && (lines[i] matches DisplayLineV::Annotation {
                    annotation,
                    orphaned,
                    ..
                } && annotation.id == a.id && orphaned == e.orphaned),
                None => e.orphaned && forall|k: int|
                    0 <= k < lines.len() ==> !((#[trigger] lines[k]) matches DisplayLineV::Annotation {
                        annotation,
                        ..
                    } && annotation.id == a.id),
            }
        }),
{
    lemma_shown_place(lines, lines.len() as int, a.id);
}

/// Of two entries of one file, the one further down in the list begins at no
/// smaller a line; entries of one file are not torn apart by those of another, as
/// the paths ascend.
pub proof fn law_list_reads_down(lines: Seq<DisplayLineV>, annotations: Seq<AnnotationV>, i: int, j: int)
    requires
        0 <= i < j < annotations.len(),
    ensures
        ({
            let list = entries_of(lines, annotations);
            &&& list[i].file_path == list[j].file_path ==> list[i].line <= list[j].line
            &&& !text_lt(list[j].file_path, list[i].file_path)
        }),
{
    law_entries_sorted(lines, annotations);
    let list = entries_of(lines, annotations);
    assert(!entry_lt(list[j], list[i]));
}

} // verus!
