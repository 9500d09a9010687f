//! Searching the display.
use regex::Regex;
use vstd::prelude::*;

use crate::display::{display_views, DisplayLine, DisplayLineV};
use crate::number::{dec, decimal};
use crate::outside::{compile_pattern, escape_text, escaped, is_match, pattern_matches, pattern_of};
use crate::screen::ScreenV;
use crate::state::{App, AppV, SearchType, SearchV};

verus! {

/// The text of a display line that a search looks at: paths, and in a search of
/// the content diff lines too.
pub open spec fn searched_text(search_type: SearchType, line: DisplayLineV) -> Option<Seq<char>> {
    match line {
        DisplayLineV::FileHeader { path, .. } => Some(path),
        DisplayLineV::Diff { line: l, .. } if search_type == SearchType::Content => Some(l.content),
        _ => None,
    }
}

/// The pattern of a query: the query as a pattern if it is a valid one, else
/// its text.
pub open spec fn query_pattern(query: Seq<char>) -> Option<Regex> {
    match pattern_of(query, true) {
        Some(p) => Some(p),
        None => pattern_of(escaped(query), true),
    }
}

/// Whether a pattern matches a display line.
pub open spec fn hits(pattern: Regex, search_type: SearchType, line: DisplayLineV) -> bool {
    match searched_text(search_type, line) {
        Some(text) => pattern_matches(pattern, text),
        None => false,
    }
}

/// The positions at which a list of flags is set.
pub open spec fn set_positions(flags: Seq<bool>) -> Seq<usize>
    decreases flags.len(),
{
    if flags.len() == 0 {
        Seq::empty()
    } else if flags.last() {
        set_positions(flags.drop_last()).push((flags.len() - 1) as usize)
    } else {
        set_positions(flags.drop_last())
    }
}

/// Which lines of a display match a query.
pub open spec fn hit_flags(lines: Seq<DisplayLineV>, search_type: SearchType, query: Seq<char>) -> Seq<
    bool,
> {
    Seq::new(
        lines.len(),
        |i: int|
            match query_pattern(query) {
                Some(p) => hits(p, search_type, lines[i]),
                None => false,
            },
    )
}

/// The lines of a display that match a query.
pub open spec fn matching(lines: Seq<DisplayLineV>, search_type: SearchType, query: Seq<char>) -> Seq<
    usize,
> {
    set_positions(hit_flags(lines, search_type, query))
}

impl AppV {
    /// With the search made anew: without a query it has no matches, else the
    /// cursor goes to the first.
    #[verifier::opaque]
    pub open spec fn searched(self) -> AppV {
        match self.search {
            None => self,
            Some(s) => if s.query.len() == 0 {
                AppV { search: Some(SearchV { matches: Seq::empty(), ..s }), ..self }
            } else {
                let matches = matching(self.screen.lines, s.search_type, s.query);
                AppV {
                    search: Some(SearchV { matches, current: 0, ..s }),
                    screen: if matches.len() > 0 {
                        self.screen.jumped(matches[0] as int, self.files.len() as int)
                    } else {
                        self.screen
                    },
                    ..self
                }
            },
        }
    }

    /// On match `i` of the search.
    #[verifier::opaque]
    pub open spec fn on_match(self, i: int) -> AppV {
        match self.search {
            None => self,
            Some(s) => AppV {
                search: Some(SearchV { current: i, ..s }),
                screen: self.screen.jumped(s.matches[i] as int, self.files.len() as int),
                message: Some(
                    "Match "@ + dec((i + 1) as nat) + "/"@ + dec(s.matches.len()),
                ),
                ..self
            },
        }
    }

    /// On the next match; behind the last one comes the first.
    #[verifier::opaque]
    pub open spec fn to_next_match(self) -> AppV {
        match self.search {
            Some(s) if s.matches.len() > 0 => self.on_match(
                if s.current + 1 >= s.matches.len() {
                    0
                } else {
                    s.current + 1
                },
            ),
            _ => self,
        }
    }

    /// On the previous match; before the first one comes the last.
    #[verifier::opaque]
    pub open spec fn to_prev_match(self) -> AppV {
        match self.search {
            Some(s) if s.matches.len() > 0 => self.on_match(
                if s.current == 0 {
                    s.matches.len() - 1
                } else {
                    s.current - 1
                },
            ),
            _ => self,
        }
    }

    /// Whether a line is a match of the search.
    pub open spec fn is_match(self, i: int) -> bool {
        self.search matches Some(s) && exists|k: int|
            0 <= k < s.matches.len() && (#[trigger] s.matches[k]) == i
    }

    /// Whether a line is the match that was jumped to.
    pub open spec fn is_current_match(self, i: int) -> bool {
        self.search matches Some(s) && 0 <= s.current < s.matches.len() && s.matches[s.current] == i
    }

    /// Whether a file is a match of a search by file name.
    pub open spec fn is_file_match(self, file_idx: int) -> bool {
        self.search matches Some(s) && s.search_type == SearchType::File && exists|k: int|
            0 <= k < s.matches.len() && (self.screen.line(
                (#[trigger] s.matches[k]) as int,
            ) matches Some(DisplayLineV::FileHeader { file_idx: f, .. }) && f == file_idx)
    }
}

/// The positions at which a list of flags is set.
pub fn positions_of(flags: &[bool]) -> (v: Vec<usize>)
    ensures
        v@ == set_positions(flags@),
{
    let mut v: Vec<usize> = Vec::new();
    let mut i: usize = 0;
    assert(flags@.take(0) =~= Seq::empty());
    while i < flags.len()
        invariant
            i <= flags@.len(),
            v@ == set_positions(flags@.take(i as int)),
        decreases flags@.len() - i,
    {
        assert(flags@.take(i + 1).drop_last() =~= flags@.take(i as int));
        if flags[i] {
            v.push(i);
        }
        i = i + 1;
    }
    assert(flags@.take(i as int) =~= flags@);
    v
}

fn find_matches(lines: &[DisplayLine], search_type: SearchType, query: &str) -> (v: Vec<usize>)
    ensures
        v@ == matching(display_views(lines@), search_type, query@),
{
    let ghost lv = display_views(lines@);
    let pattern = match compile_pattern(query, true) {
        Some(p) => Some(p),
        None => compile_pattern(escape_text(query).as_str(), true),
    };
    let mut flags: Vec<bool> = Vec::new();
    let mut i: usize = 0;
    while i < lines.len()
        invariant
            i <= lines@.len(),
            lv == display_views(lines@),
            pattern == query_pattern(query@),
            flags@.len() == i,
            forall|k: int|
                0 <= k < i ==> #[trigger] flags@[k] == hit_flags(lv, search_type, query@)[k],
        decreases lines@.len() - i,
    {
        assert(lv[i as int] == lines@[i as int]@);
        let hit = match &pattern {
            Some(p) => match &lines[i] {
                DisplayLine::FileHeader { path, .. } => is_match(p, path.as_str()),
                DisplayLine::Diff { line, .. } => search_type == SearchType::Content && is_match(
                    p,
                    line.content.as_str(),
                ),
                _ => false,
            },
            None => false,
        };
        flags.push(hit);
        i = i + 1;
    }
    assert(flags@ =~= hit_flags(lv, search_type, query@));
    positions_of(&flags)
}

impl App {
    /// Makes the search anew.
    pub fn execute_search(&mut self)
        requires
            old(self)@.wf(),
        ensures
            final(self)@ == old(self)@.searched(),
            final(self)@.wf(),
    {
        reveal(App::model);
        reveal(AppV::searched);
        let ghost s0 = self@;
        if let Some(search) = self.search.take() {
            let mut search = search;
            if search.query.as_str().is_empty() {
                search.matches = Vec::new();
                assert(search.matches@ =~= Seq::empty());
                self.search = Some(search);
                assert(self@ =~= s0.searched());
                return ;
            }
            search.matches = find_matches(
                &self.screen.display_lines,
                search.search_type,
                search.query.as_str(),
            );
            search.current_match = 0;
            let first = if search.matches.len() > 0 {
                Some(search.matches[0])
            } else {
                None
            };
            self.search = Some(search);
            let total = self.files.len();
            assert(s0.files.len() == total);
            if let Some(idx) = first {
                self.screen.jump_to_line(idx, total);
            }
            proof {
                if let Some(idx) = first {
                    lemma_jumped_frame(s0.screen, idx as int, total as int);
                }
                assert(self@ =~= s0.searched());
            }
        } else {
            assert(self@ =~= s0);
        }
    }

    fn go_to_match(&mut self, i: usize)
        requires
            old(self)@.wf(),
            old(self)@.search matches Some(s) && i < s.matches.len(),
        ensures
            final(self)@ == old(self)@.on_match(i as int),
            final(self)@.wf(),
    {
        reveal(App::model);
        reveal(AppV::on_match);
        let ghost s0 = self@;
        if let Some(search) = self.search.take() {
            let mut search = search;
            search.current_match = i;
            let idx = search.matches[i];
            let total = search.matches.len();
            self.search = Some(search);
            let files = self.files.len();
            assert(s0.files.len() == files);
            self.screen.jump_to_line(idx, files);
            let mut message = "Match ".to_owned();
            message.push_str(decimal(i as u64 + 1).as_str());
            message.push_str("/");
            message.push_str(decimal(total as u64).as_str());
            self.message = Some(message);
            proof {
                lemma_jumped_frame(s0.screen, idx as int, files as int);
                assert(self@ =~= s0.on_match(i as int));
            }
        }
    }

    /// Jumps to the next match.
    pub fn next_search_match(&mut self)
        requires
            old(self)@.wf(),
        ensures
            final(self)@ == old(self)@.to_next_match(),
            final(self)@.wf(),
    {
        reveal(App::model);
        reveal(AppV::to_next_match);
        let next = match &self.search {
            Some(s) => if s.matches.len() == 0 {
                None
            } else if s.current_match >= s.matches.len() - 1 {
                Some(0)
            } else {
                Some(s.current_match + 1)
            },
            None => None,
        };
        if let Some(i) = next {
            self.go_to_match(i);
        }
    }

    /// Jumps to the previous match.
    pub fn prev_search_match(&mut self)
        requires
            old(self)@.wf(),
        ensures
            final(self)@ == old(self)@.to_prev_match(),
            final(self)@.wf(),
    {
        reveal(App::model);
        reveal(AppV::to_prev_match);
        let prev = match &self.search {
            Some(s) => if s.matches.len() == 0 {
                None
            } else if s.current_match == 0 {
                Some(s.matches.len() - 1)
            } else {
                Some(s.current_match - 1)
            },
            None => None,
        };
        if let Some(i) = prev {
            self.go_to_match(i);
        }
    }

    /// Whether a line is a match of the search.
    pub fn is_search_match(&self, idx: usize) -> (r: bool)
        ensures
            r == self@.is_match(idx as int),
    {
        reveal(App::model);
        if let Some(s) = &self.search {
            let mut k: usize = 0;
            while k < s.matches.len()
                invariant
                    k <= s.matches@.len(),
                    self@.search == Some(s@),
                    forall|j: int| 0 <= j < k ==> #[trigger] s.matches@[j] != idx,
                decreases s.matches@.len() - k,
            {
                if s.matches[k] == idx {
                    assert(self@.is_match(idx as int)) by {
                        assert(s@.matches[k as int] == idx as int);
                    }
                    return true;
                }
                k = k + 1;
            }
        }
        false
    }

    /// Whether a line is the match that was jumped to.
    pub fn is_current_search_match(&self, idx: usize) -> (r: bool)
        ensures
            r == self@.is_current_match(idx as int),
    {
        reveal(App::model);
        match &self.search {
            Some(s) => s.current_match < s.matches.len() && s.matches[s.current_match] == idx,
            None => false,
        }
    }

    /// Whether a file is a match of a search by file name.
    pub fn is_file_search_match(&self, file_idx: usize) -> (r: bool)
        ensures
            r == self@.is_file_match(file_idx as int),
    {
        reveal(App::model);
        if let Some(s) = &self.search {
            if s.search_type != SearchType::File {
                return false;
            }
            let mut k: usize = 0;
            while k < s.matches.len()
                invariant
                    k <= s.matches@.len(),
                    self@.search == Some(s@),
                    s.search_type == SearchType::File,
                    forall|j: int|
                        0 <= j < k ==> !(self@.screen.line(
                            (#[trigger] s.matches@[j]) as int,
                        ) matches Some(DisplayLineV::FileHeader { file_idx: f, .. }) && f
                            == file_idx),
                decreases s.matches@.len() - k,
            {
                reveal(App::model);
                let i = s.matches[k];
                if i < self.screen.display_lines.len() {
                    assert(self@.screen.lines[i as int] == self.screen.display_lines@[i as int]@);
                    if let DisplayLine::FileHeader { file_idx: f, .. } =
                        &self.screen.display_lines[i] {
                        if *f == file_idx {
                            assert(s@.matches[k as int] == i);
                            return true;
                        }
                    }
                }
                k = k + 1;
            }
        }
        false
    }
}

/// A jump leaves the lines of the display as they are.
pub proof fn lemma_jumped_frame(s: ScreenV, i: int, files: int)
    ensures
        s.jumped(i, files).lines == s.lines,
        s.jumped(i, files).ranges == s.ranges,
        s.jumped(i, files).visible_height == s.visible_height,
        s.jumped(i, files).collapsed == s.collapsed,
{
    reveal(ScreenV::jumped);
    let t = s.at(crate::screen::lesser(i, crate::screen::less_one(s.lines.len() as int)));
    crate::screen::lemma_landed_frame(t);
    crate::screen::lemma_adjusted_frame(t.landed(), files);
}

// ---------------------------------------------------------------------------
// Laws
// ---------------------------------------------------------------------------
proof fn lemma_set_positions(flags: Seq<bool>)
    requires
        flags.len() <= usize::MAX,
    ensures
        ({
            let v = set_positions(flags);
            &&& forall|i: int| 0 <= i < v.len() ==> (#[trigger] v[i]) < flags.len() && flags[v[i]
                as int]
            &&& forall|i: int, j: int| 0 <= i < j < v.len() ==> v[i] < v[j]
            &&& forall|k: int|
                0 <= k < flags.len() && #[trigger] flags[k] ==> v.contains(k as usize)
        }),
    decreases flags.len(),
{
    if flags.len() > 0 {
        lemma_set_positions(flags.drop_last());
        let before = set_positions(flags.drop_last());
        let now = set_positions(flags);
        assert forall|k: int| 0 <= k < flags.len() && #[trigger] flags[k] implies now.contains(
            k as usize,
        ) by {
            if k < flags.len() - 1 {
                assert(flags.drop_last()[k]);
                let j = choose|j: int| 0 <= j < before.len() && before[j] == k as usize;
                assert(now[j] == k as usize);
            } else {
                assert(now[before.len() as int] == k as usize);
            }
        }
        assert forall|i: int| 0 <= i < now.len() implies (#[trigger] now[i]) < flags.len()
            && flags[now[i] as int] by {
            if i < before.len() {
                assert(now[i] == before[i]);
                assert(flags.drop_last()[before[i] as int]);
            }
        }
    }
}

/// The matches of a search are the lines that match, in ascending order.
pub proof fn law_matches(lines: Seq<DisplayLineV>, search_type: SearchType, query: Seq<char>)
    requires
        lines.len() <= usize::MAX,
        query_pattern(query) is Some,
    ensures
        ({
            let v = matching(lines, search_type, query);
            &&& forall|i: int, j: int| 0 <= i < j < v.len() ==> v[i] < v[j]
            &&& forall|k: int|
                0 <= k < lines.len() ==> (v.contains(k as usize) <==> #[trigger] hits(
                    query_pattern(query)->0,
                    search_type,
                    lines[k],
                ))
        }),
{
    let flags = hit_flags(lines, search_type, query);
    let v = matching(lines, search_type, query);
    lemma_set_positions(flags);
    assert forall|k: int| 0 <= k < lines.len() implies (v.contains(k as usize) <==> #[trigger] hits(
        query_pattern(query)->0,
        search_type,
        lines[k],
    )) by {
        assert(flags[k] == hits(query_pattern(query)->0, search_type, lines[k]));
        if v.contains(k as usize) {
            let i = choose|i: int| 0 <= i < v.len() && v[i] == k as usize;
            assert(flags[v[i] as int]);
        }
    }
}

/// Going to the next match and back to the previous one, or the other way
/// round, comes back to the match.
pub proof fn law_next_prev_match(s: AppV)
    requires
        s.wf(),
        s.search matches Some(v) && v.matches.len() > 0,
    ensures
        s.to_next_match().to_prev_match().search == s.search,
        s.to_prev_match().to_next_match().search == s.search,
{
    reveal(AppV::to_next_match);
    reveal(AppV::to_prev_match);
    reveal(AppV::on_match);
    let v = s.search->0;
    assert(s.to_next_match().to_prev_match().search->0 =~= v);
    assert(s.to_prev_match().to_next_match().search->0 =~= v);
}

/// A search by file name looks at the paths of the headers alone; one of the content
/// looks at the texts of the lines of files too.
pub proof fn law_what_is_searched(pattern: Regex, line: DisplayLineV)
    ensures
        match line {
            DisplayLineV::FileHeader { path, .. } => hits(pattern, SearchType::File, line)
                == pattern_matches(pattern, path) && hits(pattern, SearchType::Content, line)
                == pattern_matches(pattern, path),
            DisplayLineV::Diff { line: l, .. } => !hits(pattern, SearchType::File, line) && hits(
                pattern,
                SearchType::Content,
                line,
            ) == pattern_matches(pattern, l.content),
            _ => !hits(pattern, SearchType::File, line) && !hits(pattern, SearchType::Content, line),
        },
{
}

/// Going on from a match leads to the next one, and behind the last to the first;
/// going back leads to the one before, and before the first to the last. The cursor
/// comes to the line that matches, where that is a line of a file.
pub proof fn law_match_reached(s: AppV, q: SearchV, next: int, prev: int)
    requires
        s.search == Some(q),
        0 <= q.current < q.matches.len(),
        next == (if q.current == q.matches.len() - 1 {
            0
        } else {
            q.current + 1
        }),
        prev == (if q.current == 0 {
            q.matches.len() - 1
        } else {
            q.current - 1
        }),
    ensures
        s.to_next_match().search matches Some(n) && n.current == next && n.matches == q.matches
            && n.query == q.query,
        s.to_prev_match().search matches Some(p) && p.current == prev && p.matches == q.matches
            && p.query == q.query,
        q.matches[next] < s.screen.lines.len() && s.screen.lines[q.matches[next] as int] is Diff
            ==> s.to_next_match().screen.cursor == q.matches[next],
        q.matches[prev] < s.screen.lines.len() && s.screen.lines[q.matches[prev] as int] is Diff
            ==> s.to_prev_match().screen.cursor == q.matches[prev],
{
    reveal(AppV::to_next_match);
    reveal(AppV::to_prev_match);
    reveal(AppV::on_match);
    reveal(crate::screen::ScreenV::jumped);
    reveal(crate::screen::ScreenV::landed);
    let files = s.files.len() as int;
    let a = s.screen.at(q.matches[next] as int);
    let b = s.screen.at(q.matches[prev] as int);
    crate::screen::lemma_landed_frame(a);
    crate::screen::lemma_landed_frame(b);
    crate::screen::lemma_adjusted_frame(a.landed(), files);
    crate::screen::lemma_adjusted_frame(b.landed(), files);
}

} // verus!
