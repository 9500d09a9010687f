//! Highlighting whole files in the background: which files are highlighted,
//! which wait, and which are being worked on.
use vstd::prelude::*;

use crate::diff::{
    file_views, load_new_file_content_for_highlight, new_text_source, opt_source, DiffFile,
    DiffFileV, DiffMode, DiffModeV, HighlightRange, Source, SourceV,
};
use crate::display::map_views;
use crate::names::{NameMap, NameSet};
use crate::outside::str_eq;
use crate::text::texts;

verus! {

/// How many files are worked on at a time.
pub const MAX_INFLIGHT: usize = 2;

/// A file to be highlighted: the diff that asked for it, its key, and where its
/// text is read from.
#[derive(Debug)]
pub struct HighlightJob {
    pub generation: u64,
    pub file_key: String,
    pub source: Option<Source>,
}

/// The value of a [`HighlightJob`].
pub struct HighlightJobV {
    pub generation: u64,
    pub file_key: Seq<char>,
    pub source: Option<SourceV>,
}

impl View for HighlightJob {
    type V = HighlightJobV;

    open spec fn view(&self) -> HighlightJobV {
        HighlightJobV {
            generation: self.generation,
            file_key: self.file_key@,
            source: opt_source(self.source),
        }
    }
}

/// The values of a list of jobs.
pub open spec fn job_views(jobs: Seq<HighlightJob>) -> Seq<HighlightJobV> {
    Seq::new(jobs.len(), |i: int| jobs[i]@)
}

/// The highlights that are known, and those that have been asked for.
#[derive(Debug)]
pub struct Highlights {
    pub cache_old: NameMap<Vec<Vec<HighlightRange>>>,
    pub cache_new: NameMap<Vec<Vec<HighlightRange>>>,
    /// The files that have been highlighted as a whole.
    pub full: NameSet,
    /// The files that have been asked for.
    pub pending: NameSet,
    /// The files that wait, the next one first.
    pub queue: Vec<String>,
    pub inflight: usize,
    /// The jobs that have not been started yet.
    pub jobs: Vec<HighlightJob>,
}

/// The value of [`Highlights`].
#[verifier::ext_equal]
pub struct HighlightsV {
    pub cached_old: Map<Seq<char>, Seq<Seq<HighlightRange>>>,
    pub cached_new: Map<Seq<char>, Seq<Seq<HighlightRange>>>,
    pub full: Set<Seq<char>>,
    pub pending: Set<Seq<char>>,
    pub queue: Seq<Seq<char>>,
    pub inflight: int,
    pub jobs: Seq<HighlightJobV>,
}

/// The highlights of files.
pub open spec fn maps_view(m: Map<Seq<char>, Vec<Vec<HighlightRange>>>) -> Map<
    Seq<char>,
    Seq<Seq<HighlightRange>>,
> {
    m.map_values(|v: Vec<Vec<HighlightRange>>| map_views(v@))
}

/// Highlights of a file come in one by one.
pub proof fn lemma_maps_insert(
    m: Map<Seq<char>, Vec<Vec<HighlightRange>>>,
    key: Seq<char>,
    v: Vec<Vec<HighlightRange>>,
)
    ensures
        maps_view(m.insert(key, v)) == maps_view(m).insert(key, map_views(v@)),
{
    assert(maps_view(m.insert(key, v)) =~= maps_view(m).insert(key, map_views(v@)));
}

impl View for Highlights {
    type V = HighlightsV;

    open spec fn view(&self) -> HighlightsV {
        HighlightsV {
            cached_old: maps_view(self.cache_old@),
            cached_new: maps_view(self.cache_new@),
            full: self.full@,
            pending: self.pending@,
            queue: texts(self.queue@),
            inflight: self.inflight as int,
            jobs: job_views(self.jobs@),
        }
    }
}

/// The diff that files are highlighted for.
pub struct DiffV {
    pub files: Seq<DiffFileV>,
    pub index: Map<Seq<char>, usize>,
    pub mode: DiffModeV,
    pub generation: u64,
}

impl DiffV {
    /// The file of a key.
    pub open spec fn file_of(self, key: Seq<char>) -> Option<DiffFileV> {
        if self.index.contains_key(key) && self.index[key] < self.files.len() {
            Some(self.files[self.index[key] as int])
        } else {
            None
        }
    }
}

impl HighlightsV {
    /// Nothing known and nothing asked for; jobs that have been set up remain.
    pub open spec fn cleared(self) -> HighlightsV {
        HighlightsV {
            cached_old: Map::empty(),
            cached_new: Map::empty(),
            full: Set::empty(),
            pending: Set::empty(),
            queue: Seq::empty(),
            inflight: 0,
            ..self
        }
    }

    /// With jobs set up for the files that wait, as far as there is room. Files
    /// that are no longer asked for or no longer there are passed over.
    pub open spec fn kicked(self, diff: DiffV) -> HighlightsV
        decreases self.queue.len(),
    {
        if self.inflight >= MAX_INFLIGHT || self.queue.len() == 0 {
            self
        } else {
            let key = self.queue[0];
            let rest = HighlightsV { queue: self.queue.skip(1), ..self };
            if !self.pending.contains(key) {
                rest.kicked(diff)
            } else {
                match diff.file_of(key) {
                    None => (HighlightsV { pending: self.pending.remove(key), ..rest }).kicked(diff),
                    Some(file) => (HighlightsV {
                        inflight: self.inflight + 1,
                        jobs: self.jobs.push(
                            HighlightJobV {
                                generation: diff.generation,
                                file_key: key,
                                source: new_text_source(diff.mode, file, key),
                            },
                        ),
                        ..rest
                    }).kicked(diff),
                }
            }
        }
    }

    /// With a file asked for, unless it is known or has been asked for. The file
    /// that the cursor is in goes first.
    pub open spec fn scheduled(
        self,
        highlighting: bool,
        path: Seq<char>,
        current: Option<Seq<char>>,
        diff: DiffV,
    ) -> HighlightsV {
        if !highlighting || self.cached_new.contains_key(path) || self.full.contains(path)
            || self.pending.contains(path) {
            self
        } else {
            (HighlightsV {
                pending: self.pending.insert(path),
                queue: if current == Some(path) {
                    seq![path] + self.queue
                } else {
                    self.queue.push(path)
                },
                ..self
            }).kicked(diff)
        }
    }

    /// With a file highlighted.
    pub open spec fn finished(
        self,
        key: Seq<char>,
        map: Seq<Seq<HighlightRange>>,
        diff: DiffV,
    ) -> HighlightsV {
        (HighlightsV {
            cached_new: self.cached_new.insert(key, map),
            full: self.full.insert(key),
            pending: self.pending.remove(key),
            inflight: if self.inflight > 0 {
                self.inflight - 1
            } else {
                0
            },
            ..self
        }).kicked(diff)
    }

    /// With the new text of a file highlighted for the expanded view, unless it
    /// was highlighted before.
    pub open spec fn with_new(self, key: Seq<char>, map: Seq<Seq<HighlightRange>>) -> HighlightsV {
        HighlightsV {
            cached_new: if self.full.contains(key) {
                self.cached_new
            } else {
                self.cached_new.insert(key, map)
            },
            full: self.full.insert(key),
            ..self
        }
    }

    /// With the old text of a file highlighted for the expanded view, unless it
    /// was highlighted before.
    pub open spec fn with_old(self, key: Seq<char>, map: Seq<Seq<HighlightRange>>) -> HighlightsV {
        HighlightsV {
            cached_old: if self.cached_old.contains_key(key) {
                self.cached_old
            } else {
                self.cached_old.insert(key, map)
            },
            ..self
        }
    }
}

/// The diff that files are highlighted for.
pub struct DiffRef<'a> {
    pub files: &'a [DiffFile],
    pub index: &'a NameMap<usize>,
    pub mode: &'a DiffMode,
    pub generation: u64,
}

impl<'a> View for DiffRef<'a> {
    type V = DiffV;

    open spec fn view(&self) -> DiffV {
        DiffV {
            files: file_views(self.files@),
            index: self.index@,
            mode: self.mode@,
            generation: self.generation,
        }
    }
}

impl Highlights {
    /// No highlights.
    pub fn new() -> (r: Self)
        ensures
            r@ == (HighlightsV {
                cached_old: Map::empty(),
                cached_new: Map::empty(),
                full: Set::empty(),
                pending: Set::empty(),
                queue: Seq::empty(),
                inflight: 0,
                jobs: Seq::empty(),
            }),
    {
        let r = Highlights {
            cache_old: NameMap::new(),
            cache_new: NameMap::new(),
            full: NameSet::new(),
            pending: NameSet::new(),
            queue: Vec::new(),
            inflight: 0,
            jobs: Vec::new(),
        };
        assert(r@ =~= (HighlightsV {
            cached_old: Map::empty(),
            cached_new: Map::empty(),
            full: Set::empty(),
            pending: Set::empty(),
            queue: Seq::empty(),
            inflight: 0,
            jobs: Seq::empty(),
        }));
        r
    }

    /// Forgets all highlights.
    pub fn clear(&mut self)
        ensures
            final(self)@ == old(self)@.cleared(),
    {
        self.cache_old.clear();
        self.cache_new.clear();
        self.full = NameSet::new();
        self.pending = NameSet::new();
        self.queue = Vec::new();
        self.inflight = 0;
        assert(self@ =~= old(self)@.cleared());
    }

    /// Sets up jobs for the files that wait.
    pub fn kick_full_highlight_jobs(&mut self, diff: &DiffRef)
        ensures
            final(self)@ == old(self)@.kicked(diff@),
    {
        let ghost goal = self@.kicked(diff@);
        while self.inflight < MAX_INFLIGHT && self.queue.len() > 0
            invariant
                self@.kicked(diff@) == goal,
            decreases self.queue@.len(),
        {
            let ghost s0 = self@;
            let key = self.queue.remove(0);
            assert(texts(self.queue@) =~= s0.queue.skip(1));
            assert(s0.queue[0] == key@);
            if !self.pending.contains(key.as_str()) {
                assert(self@ =~= (HighlightsV { queue: s0.queue.skip(1), ..s0 }));
                continue ;
            }
            let found = match diff.index.get(key.as_str()) {
                Some(idx) => if *idx < diff.files.len() {
                    Some(*idx)
                } else {
                    None
                },
                None => None,
            };
            match found {
                Some(idx) => {
                    let source = load_new_file_content_for_highlight(
                        diff.mode,
                        &diff.files[idx],
                        key.as_str(),
                    );
                    assert(diff@.file_of(key@) == Some(diff.files@[idx as int]@));
                    self.inflight = self.inflight + 1;
                    let ghost jobs0 = self.jobs@;
                    let job = HighlightJob { generation: diff.generation, file_key: key, source };
                    self.jobs.push(job);
                    assert(job_views(self.jobs@) =~= job_views(jobs0).push(job@));
                },
                None => {
                    self.pending.remove(key.as_str());
                },
            }
        }
    }

    /// Asks for a file.
    pub fn maybe_schedule_full_file_highlight(
        &mut self,
        highlighting: bool,
        path: &str,
        current: &Option<String>,
        diff: &DiffRef,
    )
        ensures
            final(self)@ == old(self)@.scheduled(
                highlighting,
                path@,
                crate::text::opt_text(*current),
                diff@,
            ),
    {
        if !highlighting || self.cache_new.contains_key(path) || self.full.contains(path)
            || self.pending.contains(path) {
            return ;
        }
        let ghost s0 = self@;
        self.pending.insert(path);
        let first = match current {
            Some(c) => str_eq(c.as_str(), path),
            None => false,
        };
        if first {
            self.queue.insert(0, path.to_owned());
            assert(texts(self.queue@) =~= seq![path@] + s0.queue);
        } else {
            self.queue.push(path.to_owned());
            assert(texts(self.queue@) =~= s0.queue.push(path@));
        }
        self.kick_full_highlight_jobs(diff);
    }

    /// Takes in the highlights of a file.
    pub fn finish(&mut self, key: &str, map: Vec<Vec<HighlightRange>>, diff: &DiffRef)
        ensures
            final(self)@ == old(self)@.finished(key@, map_views(map@), diff@),
    {
        let ghost s0 = self@;
        proof {
            lemma_maps_insert(self.cache_new@, key@, map);
        }
        self.cache_new.insert(key, map);
        self.full.insert(key);
        self.pending.remove(key);
        if self.inflight > 0 {
            self.inflight = self.inflight - 1;
        }
        assert(self@ =~= (HighlightsV {
            cached_new: s0.cached_new.insert(key@, map_views(map@)),
            full: s0.full.insert(key@),
            pending: s0.pending.remove(key@),
            inflight: if s0.inflight > 0 {
                s0.inflight - 1
            } else {
                0
            },
            ..s0
        }));
        self.kick_full_highlight_jobs(diff);
    }
}

impl HighlightsV {
    /// Whether the same highlights are known.
    pub open spec fn knows_same(self, other: HighlightsV) -> bool {
        &&& self.cached_old == other.cached_old
        &&& self.cached_new == other.cached_new
        &&& self.full == other.full
    }
}

// ---------------------------------------------------------------------------
// Laws
// ---------------------------------------------------------------------------
/// Setting up jobs changes nothing of what is known.
pub proof fn law_kicked_knows_same(h: HighlightsV, diff: DiffV)
    ensures
        h.kicked(diff).knows_same(h),
    decreases h.queue.len(),
{
    if h.inflight < MAX_INFLIGHT && h.queue.len() > 0 {
        let key = h.queue[0];
        let rest = HighlightsV { queue: h.queue.skip(1), ..h };
        if !h.pending.contains(key) {
            law_kicked_knows_same(rest, diff);
        } else {
            match diff.file_of(key) {
                None => {
                    law_kicked_knows_same(
                        HighlightsV { pending: h.pending.remove(key), ..rest },
                        diff,
                    );
                },
                Some(file) => {
                    law_kicked_knows_same(
                        HighlightsV {
                            inflight: h.inflight + 1,
                            jobs: h.jobs.push(
                                HighlightJobV {
                                    generation: diff.generation,
                                    file_key: key,
                                    source: new_text_source(diff.mode, file, key),
                                },
                            ),
                            ..rest
                        },
                        diff,
                    );
                },
            }
        }
    }
}

/// Asking for a file changes nothing of what is known.
pub proof fn law_scheduled_knows_same(
    h: HighlightsV,
    highlighting: bool,
    path: Seq<char>,
    current: Option<Seq<char>>,
    diff: DiffV,
)
    ensures
        h.scheduled(highlighting, path, current, diff).knows_same(h),
{
    if !(!highlighting || h.cached_new.contains_key(path) || h.full.contains(path)
        || h.pending.contains(path)) {
        law_kicked_knows_same(
            HighlightsV {
                pending: h.pending.insert(path),
                queue: if current == Some(path) {
                    seq![path] + h.queue
                } else {
                    h.queue.push(path)
                },
                ..h
            },
            diff,
        );
    }
}

/// Never more files are worked on than allowed.
pub proof fn law_inflight_bounded(h: HighlightsV, diff: DiffV)
    requires
        0 <= h.inflight <= MAX_INFLIGHT,
    ensures
        0 <= h.kicked(diff).inflight <= MAX_INFLIGHT,
    decreases h.queue.len(),
{
    if h.inflight < MAX_INFLIGHT && h.queue.len() > 0 {
        let key = h.queue[0];
        let rest = HighlightsV { queue: h.queue.skip(1), ..h };
        if !h.pending.contains(key) {
            law_inflight_bounded(rest, diff);
        } else {
            match diff.file_of(key) {
                None => {
                    law_inflight_bounded(
                        HighlightsV { pending: h.pending.remove(key), ..rest },
                        diff,
                    );
                },
                Some(file) => {
                    law_inflight_bounded(
                        HighlightsV {
                            inflight: h.inflight + 1,
                            jobs: h.jobs.push(
                                HighlightJobV {
                                    generation: diff.generation,
                                    file_key: key,
                                    source: new_text_source(diff.mode, file, key),
                                },
                            ),
                            ..rest
                        },
                        diff,
                    );
                },
            }
        }
    }
}

/// Setting up jobs leaves no file waiting while there is room.
pub proof fn law_no_idle(h: HighlightsV, diff: DiffV)
    ensures
        h.kicked(diff).queue.len() == 0 || h.kicked(diff).inflight >= MAX_INFLIGHT,
    decreases h.queue.len(),
{
    if h.inflight < MAX_INFLIGHT && h.queue.len() > 0 {
        let key = h.queue[0];
        let rest = HighlightsV { queue: h.queue.skip(1), ..h };
        if !h.pending.contains(key) {
            law_no_idle(rest, diff);
        } else {
            match diff.file_of(key) {
                None => {
                    law_no_idle(HighlightsV { pending: h.pending.remove(key), ..rest }, diff);
                },
                Some(file) => {
                    law_no_idle(
                        HighlightsV {
                            inflight: h.inflight + 1,
                            jobs: h.jobs.push(
                                HighlightJobV {
                                    generation: diff.generation,
                                    file_key: key,
                                    source: new_text_source(diff.mode, file, key),
                                },
                            ),
                            ..rest
                        },
                        diff,
                    );
                },
            }
        }
    }
}

/// Asking for a file twice asks for it once.
pub proof fn law_schedule_once(
    h: HighlightsV,
    highlighting: bool,
    path: Seq<char>,
    current: Option<Seq<char>>,
    diff: DiffV,
)
    requires
        h.pending.contains(path) || h.full.contains(path) || h.cached_new.contains_key(path),
    ensures
        h.scheduled(highlighting, path, current, diff) == h,
{
}

proof fn lemma_kicked_jobs(h: HighlightsV, diff: DiffV)
    ensures
        h.kicked(diff).jobs.len() >= h.jobs.len(),
        forall|i: int| 0 <= i < h.jobs.len() ==> h.kicked(diff).jobs[i] == #[trigger] h.jobs[i],
    decreases h.queue.len(),
{
    if h.inflight < MAX_INFLIGHT && h.queue.len() > 0 {
        let key = h.queue[0];
        let rest = HighlightsV { queue: h.queue.skip(1), ..h };
        if !h.pending.contains(key) {
            lemma_kicked_jobs(rest, diff);
        } else {
            match diff.file_of(key) {
                None => {
                    lemma_kicked_jobs(
                        HighlightsV { pending: h.pending.remove(key), ..rest },
                        diff,
                    );
                },
                Some(file) => {
                    let more = HighlightsV {
                        inflight: h.inflight + 1,
                        jobs: h.jobs.push(
                            HighlightJobV {
                                generation: diff.generation,
                                file_key: key,
                                source: new_text_source(diff.mode, file, key),
                            },
                        ),
                        ..rest
                    };
                    lemma_kicked_jobs(more, diff);
                    assert forall|i: int| 0 <= i < h.jobs.len() implies h.kicked(diff).jobs[i]
                        == #[trigger] h.jobs[i] by {
                        assert(more.jobs[i] == h.jobs[i]);
                    }
                },
            }
        }
    }
}

/// The file that waits first is the next to be worked on, with the text of its new
/// side, where there is room and it is still asked for.
pub proof fn law_first_in_line(h: HighlightsV, diff: DiffV, file: DiffFileV)
    requires
        h.inflight < 2,
        h.queue.len() > 0,
        h.pending.contains(h.queue[0]),
        diff.file_of(h.queue[0]) == Some(file),
    ensures
        h.kicked(diff).jobs.len() > h.jobs.len(),
        h.kicked(diff).jobs[h.jobs.len() as int].file_key == h.queue[0],
        h.kicked(diff).jobs[h.jobs.len() as int].generation == diff.generation,
        h.kicked(diff).jobs[h.jobs.len() as int].source == new_text_source(
            diff.mode,
            file,
            h.queue[0],
        ),
{
    let key = h.queue[0];
    let job = HighlightJobV {
        generation: diff.generation,
        file_key: key,
        source: new_text_source(diff.mode, file, key),
    };
    let more = HighlightsV {
        inflight: h.inflight + 1,
        jobs: h.jobs.push(job),
        queue: h.queue.skip(1),
        ..h
    };
    lemma_kicked_jobs(more, diff);
    assert(more.jobs[h.jobs.len() as int] == job);
}

/// While all places are taken, a file that is asked for waits: the file that the
/// cursor is in before all others, any other behind them.
pub proof fn law_current_file_first(h: HighlightsV, path: Seq<char>, current: Option<Seq<char>>, diff: DiffV)
    requires
        h.inflight >= 2,
        !h.pending.contains(path),
        !h.full.contains(path),
        !h.cached_new.contains_key(path),
    ensures
        ({
            let t = h.scheduled(true, path, current, diff);
            &&& t.pending.contains(path)
            &&& t.queue.len() == h.queue.len() + 1
            &&& current == Some(path) ==> t.queue[0] == path && t.queue.skip(1) == h.queue
            &&& current != Some(path) ==> t.queue.last() == path && t.queue.drop_last() == h.queue
            &&& h.scheduled(false, path, current, diff) == h
        }),
{
    assert((seq![path] + h.queue).skip(1) =~= h.queue);
    assert(h.queue.push(path).drop_last() =~= h.queue);
}

/// A file whose highlights have come is known by them, and is no longer waited for;
/// what was known of other files stays.
pub proof fn law_finished_is_known(h: HighlightsV, key: Seq<char>, map: Seq<Seq<HighlightRange>>, diff: DiffV)
    ensures
        ({
            let t = h.finished(key, map, diff);
            &&& t.cached_new.contains_key(key)
            &&& t.cached_new[key] == map
            &&& t.full.contains(key)
            &&& !t.pending.contains(key)
            &&& forall|k: Seq<char>|
                k != key ==> (#[trigger] t.cached_new.contains_key(k)
                    == h.cached_new.contains_key(k)) && (h.cached_new.contains_key(k)
                    ==> t.cached_new[k] == h.cached_new[k])
            &&& t.cached_old == h.cached_old
        }),
{
    let s = HighlightsV {
        cached_new: h.cached_new.insert(key, map),
        full: h.full.insert(key),
        pending: h.pending.remove(key),
        inflight: if h.inflight > 0 {
            h.inflight - 1
        } else {
            0
        },
        ..h
    };
    law_kicked_knows_same(s, diff);
    lemma_kicked_pending(s, diff);
}

proof fn lemma_kicked_pending(h: HighlightsV, diff: DiffV)
    ensures
        forall|k: Seq<char>| #[trigger]
            h.kicked(diff).pending.contains(k) ==> h.pending.contains(k),
    decreases h.queue.len(),
{
    if h.inflight < MAX_INFLIGHT && h.queue.len() > 0 {
        let key = h.queue[0];
        let rest = HighlightsV { queue: h.queue.skip(1), ..h };
        let next = if !h.pending.contains(key) {
            rest
        } else {
            match diff.file_of(key) {
                None => HighlightsV { pending: h.pending.remove(key), ..rest },
                Some(file) => HighlightsV {
                    inflight: h.inflight + 1,
                    jobs: h.jobs.push(
                        HighlightJobV {
                            generation: diff.generation,
                            file_key: key,
                            source: new_text_source(diff.mode, file, key),
                        },
                    ),
                    ..rest
                },
            }
        };
        lemma_kicked_pending(next, diff);
        assert(h.kicked(diff) == next.kicked(diff));
        assert forall|k: Seq<char>| #[trigger]
            h.kicked(diff).pending.contains(k) implies h.pending.contains(k) by {
            assert(next.kicked(diff).pending.contains(k));
            assert(next.pending.contains(k));
        }
    }
}

} // verus!
