//! Sending annotations to an AI program, and reading what it answers.
use serde_json::Value;
use vstd::prelude::*;

use crate::action::{Action, ActionV, Next, NextV};
use crate::annotate::with_id;
use crate::config::AiTarget;
use crate::display::{opt_idx, DisplayLine, DisplayLineV};
use crate::number::{dec, decimal, i64_value, parse_i64, signed_dec, signed_decimal};
use crate::outside::{json_get, json_member, json_string, json_text, json_value, parse_json, str_eq};
use crate::state::{ai_views, AiJob, AiJobV, AiStatus, App, AppV, Mode};
use crate::storage::{resolve_statement, stored_side, stored_type, Annotation, AnnotationV, Storage};
use crate::text::{after_prefix, lines, lines_of, opt_text, strip_prefix, texts, trim, trimmed};

verus! {

// ---------------------------------------------------------------------------
// Reading answers
// ---------------------------------------------------------------------------
/// The text of an event: of a change of a block the changed text, else the text
/// of the event itself.
pub open spec fn text_of_event(
    event_type: Seq<char>,
    delta: Option<Seq<char>>,
    text: Option<Seq<char>>,
) -> Option<Seq<char>> {
    if event_type == "content_block_delta"@ && delta is Some {
        delta
    } else {
        text
    }
}

/// A member of a JSON object that is a string.
pub open spec fn string_member(value: Value, key: Seq<char>) -> Option<Seq<char>> {
    match json_member(value, key) {
        Some(v) => json_string(v),
        None => None,
    }
}

/// The text that a line of an answer holds.
pub open spec fn answer_text(line: Seq<char>) -> Option<Seq<char>> {
    let t = trimmed(line);
    if t.len() == 0 {
        None
    } else {
        match json_value(t) {
            None => None,
            Some(value) => text_of_event(
                match string_member(value, "type"@) {
                    Some(s) => s,
                    None => ""@,
                },
                match json_member(value, "delta"@) {
                    Some(d) => string_member(d, "text"@),
                    None => None,
                },
                string_member(value, "text"@),
            ),
        }
    }
}

/// The text of an event.
pub fn event_text(event_type: &str, delta: Option<String>, text: Option<String>) -> (r: Option<
    String,
>)
    ensures
        opt_text(r) == text_of_event(event_type@, opt_text(delta), opt_text(text)),
{
    if str_eq(event_type, "content_block_delta") && delta.is_some() {
        delta
    } else {
        text
    }
}

fn get_string(value: &Value, key: &str) -> (r: Option<String>)
    ensures
        opt_text(r) == string_member(*value, key@),
{
    match json_get(value, key) {
        Some(v) => json_text(v),
        None => None,
    }
}

/// The text that a line of an answer holds.
pub fn extract_claude_text(line: &str) -> (r: Option<String>)
    ensures
        opt_text(r) == answer_text(line@),
{
    let t = trim(line);
    if t.as_str().is_empty() {
        return None;
    }
    let value = match parse_json(t.as_str()) {
        Some(value) => value,
        None => {
            return None;
        },
    };
    let event_type = match get_string(&value, "type") {
        Some(s) => s,
        None => "".to_owned(),
    };
    let delta = match json_get(&value, "delta") {
        Some(d) => get_string(d, "text"),
        None => None,
    };
    event_text(event_type.as_str(), delta, get_string(&value, "text"))
}

/// Whether a line of an answer says that an annotation is done with: by itself,
/// or with the annotation's id.
pub open spec fn says_resolved(line: Seq<char>, id: i64) -> bool {
    let t = trimmed(line);
    t == "RESOLVE_ANNOTATION"@ || (after_prefix(t, "RESOLVE_ANNOTATION:"@) matches Some(rest)
        && i64_value(trimmed(rest)) == Some(id))
}

/// Whether some line of an answer says that an annotation is done with.
pub open spec fn answer_resolves(output: Seq<char>, id: i64) -> bool {
    exists|i: int|
        0 <= i < lines_of(output).len() && says_resolved(#[trigger] lines_of(output)[i], id)
}

/// Whether some line of an answer says that an annotation is done with.
pub fn wants_resolve(output: &str, id: i64) -> (r: bool)
    ensures
        r == answer_resolves(output@, id),
{
    let v = lines(output);
    let ghost lv = lines_of(output@);
    assert(lv.len() == v@.len());
    let mut i: usize = 0;
    while i < v.len()
        invariant
            i <= v@.len(),
            lv == texts(v@),
            lv == lines_of(output@),
            forall|k: int| 0 <= k < i ==> !says_resolved(#[trigger] lv[k], id),
        decreases v@.len() - i,
    {
        assert(lv[i as int] == v@[i as int]@);
        let t = trim(v[i].as_str());
        let mut said = str_eq(t.as_str(), "RESOLVE_ANNOTATION");
        if !said {
            if let Some(rest) = strip_prefix(t.as_str(), "RESOLVE_ANNOTATION:") {
                if let Some(n) = parse_i64(trim(rest.as_str()).as_str()) {
                    said = n == id;
                }
            }
        }
        assert(said == says_resolved(lv[i as int], id));
        if said {
            return true;
        }
        i = i + 1;
    }
    false
}

// ---------------------------------------------------------------------------
// Asking
// ---------------------------------------------------------------------------
/// What an AI program is told of an annotation.
pub open spec fn prompt_of(a: AnnotationV) -> Seq<char> {
    "You are a coding agent. Use the instruction below to act.\n\n"@ + "Instruction:\n"@
        + "- Annotation ID: "@ + signed_dec(a.id as int) + "\n- File: "@ + a.file_path
        + "\n- Line: "@ + dec(a.start_line as nat) + "\n- Side: "@ + stored_side(a.side)
        + "\n- Type: "@ + stored_type(a.annotation_type) + "\n"@ + "\nAnnotation:\n"@ + a.content
        + "\n\nContext (before):\n"@ + a.context_before + "\n\nContext (after):\n"@
        + a.context_after + "\n\nIf you complete the task, output a single line:\n"@
        + "RESOLVE_ANNOTATION: "@ + signed_dec(a.id as int) + "\n"@
}

/// Writes what an AI program is told of an annotation.
pub fn build_ai_prompt(annotation: &Annotation) -> (prompt: String)
    ensures
        prompt@ == prompt_of(annotation@),
{
    let mut prompt = "You are a coding agent. Use the instruction below to act.\n\n".to_owned();
    prompt.push_str("Instruction:\n");
    prompt.push_str("- Annotation ID: ");
    prompt.push_str(signed_decimal(annotation.id).as_str());
    prompt.push_str("\n- File: ");
    prompt.push_str(annotation.file_path.as_str());
    prompt.push_str("\n- Line: ");
    prompt.push_str(decimal(annotation.start_line as u64).as_str());
    prompt.push_str("\n- Side: ");
    prompt.push_str(annotation.side.as_str());
    prompt.push_str("\n- Type: ");
    prompt.push_str(annotation.annotation_type.as_str());
    prompt.push_str("\n");
    prompt.push_str("\nAnnotation:\n");
    prompt.push_str(annotation.content.as_str());
    prompt.push_str("\n\nContext (before):\n");
    prompt.push_str(annotation.context_before.as_str());
    prompt.push_str("\n\nContext (after):\n");
    prompt.push_str(annotation.context_after.as_str());
    prompt.push_str("\n\nIf you complete the task, output a single line:\n");
    prompt.push_str("RESOLVE_ANNOTATION: ");
    prompt.push_str(signed_decimal(annotation.id).as_str());
    prompt.push_str("\n");
    prompt
}

/// The arguments that a prompt is given with.
pub open spec fn ai_args(target: AiTarget, prompt: Seq<char>) -> Seq<Seq<char>> {
    match target {
        AiTarget::Claude => seq![
            "-p"@,
            "--verbose"@,
            "--output-format"@,
            "stream-json"@,
            "--include-partial-messages"@,
            "--"@,
            prompt,
        ],
        AiTarget::Codex => seq!["exec"@, prompt],
    }
}

/// The arguments that a prompt is given with.
pub fn ai_command(target: AiTarget, prompt: String) -> (args: Vec<String>)
    ensures
        texts(args@) == ai_args(target, prompt@),
{
    let mut args: Vec<String> = Vec::new();
    match target {
        AiTarget::Claude => {
            args.push("-p".to_owned());
            args.push("--verbose".to_owned());
            args.push("--output-format".to_owned());
            args.push("stream-json".to_owned());
            args.push("--include-partial-messages".to_owned());
            args.push("--".to_owned());
            args.push(prompt);
            assert(texts(args@) =~= ai_args(target, prompt@));
        },
        AiTarget::Codex => {
            args.push("exec".to_owned());
            args.push(prompt);
            assert(texts(args@) =~= ai_args(target, prompt@));
        },
    }
    args
}

// ---------------------------------------------------------------------------
// Jobs
// ---------------------------------------------------------------------------
/// What an AI program has done.
#[derive(Debug)]
pub enum AiEvent {
    /// It has written a line.
    Output { job_id: u64, chunk: String },
    /// It has ended.
    Done { job_id: u64, ok: bool },
}

/// The value of an [`AiEvent`].
pub enum AiEventV {
    Output { job_id: u64, chunk: Seq<char> },
    Done { job_id: u64, ok: bool },
}

impl View for AiEvent {
    type V = AiEventV;

    open spec fn view(&self) -> AiEventV {
        match self {
            AiEvent::Output { job_id, chunk } => AiEventV::Output {
                job_id: *job_id,
                chunk: chunk@,
            },
            AiEvent::Done { job_id, ok } => AiEventV::Done { job_id: *job_id, ok: *ok },
        }
    }
}

/// The first job from `i` on with an id.
pub open spec fn job_with(jobs: Seq<AiJobV>, i: int, id: u64) -> Option<int>
    decreases jobs.len() - i,
{
    if !(0 <= i < jobs.len()) {
        None
    } else if jobs[i].id == id {
        Some(i)
    } else {
        job_with(jobs, i + 1, id)
    }
}

/// What a line that a program has written adds to the output of its job.
pub open spec fn added_output(target: AiTarget, chunk: Seq<char>) -> Seq<char> {
    match target {
        AiTarget::Claude => match answer_text(chunk) {
            Some(text) => text,
            None => Seq::empty(),
        },
        AiTarget::Codex => chunk,
    }
}

/// A job for an annotation.
pub open spec fn new_job(id: u64, a: AnnotationV, target: AiTarget) -> AiJobV {
    AiJobV {
        id,
        annotation_id: a.id,
        annotation_type: a.annotation_type,
        file_path: a.file_path,
        line: a.start_line,
        status: AiStatus::Running,
        output: Seq::empty(),
        target,
    }
}

impl AppV {
    /// The annotation to send: the one that the cursor is on, the selected one
    /// of the list, or that of the current line. An error ends the program.
    #[verifier::opaque]
    pub open spec fn annotation_to_send(self) -> Result<Option<AnnotationV>, Seq<char>> {
        match self.screen.line(self.screen.cursor) {
            Some(DisplayLineV::Annotation { annotation, .. }) => Ok(Some(annotation)),
            _ => if self.mode == Mode::AnnotationList {
                if self.list_idx < self.entries().len() {
                    match with_id(self.annotations, 0, self.entries()[self.list_idx].id) {
                        Some(i) => Ok(Some(self.annotations[i])),
                        None => Err("Annotation not found"@),
                    }
                } else {
                    Err("Annotation not found"@)
                }
            } else {
                match self.annotation_here() {
                    Some(i) => Ok(Some(self.annotations[i])),
                    None => Ok(None),
                }
            },
        }
    }

    /// With a job for an annotation.
    #[verifier::opaque]
    pub open spec fn with_job(self, a: AnnotationV) -> AppV {
        AppV {
            ai_jobs: self.ai_jobs.push(new_job(self.ai_next_id, a, self.config.ai_target)),
            ai_next_id: if self.ai_next_id == u64::MAX {
                0
            } else {
                (self.ai_next_id + 1) as u64
            },
            ..self
        }
    }

    /// Sending the current annotation.
    #[verifier::opaque]
    pub open spec fn sending(self) -> (AppV, ActionV) {
        match self.annotation_to_send() {
            Err(e) => (self, ActionV::Fail(e)),
            Ok(None) => (self.saying("Move to an annotation to send to AI"@), ActionV::Idle),
            Ok(Some(a)) => (
                self.with_job(a),
                ActionV::RunAi {
                    job_id: self.ai_next_id,
                    target: self.config.ai_target,
                    args: ai_args(self.config.ai_target, prompt_of(a)),
                },
            ),
        }
    }

    /// Once a program has written a line or ended. An answer that says so
    /// resolves its annotation.
    #[verifier::opaque]
    pub open spec fn answered(self, event: AiEventV) -> (AppV, ActionV) {
        match event {
            AiEventV::Output { job_id, chunk } => match job_with(self.ai_jobs, 0, job_id) {
                Some(i) => {
                    let job = self.ai_jobs[i];
                    (
                        AppV {
                            ai_jobs: self.ai_jobs.update(
                                i,
                                AiJobV {
                                    output: job.output + added_output(job.target, chunk),
                                    ..job
                                },
                            ),
                            ..self
                        },
                        ActionV::Idle,
                    )
                },
                None => (self, ActionV::Idle),
            },
            AiEventV::Done { job_id, ok } => match job_with(self.ai_jobs, 0, job_id) {
                Some(i) => {
                    let job = self.ai_jobs[i];
                    (
                        AppV {
                            ai_jobs: self.ai_jobs.update(
                                i,
                                AiJobV { status: AiStatus::Done { ok }, ..job },
                            ),
                            ..self
                        },
                        if ok && answer_resolves(job.output, job.annotation_id) {
                            ActionV::Store {
                                statement: resolve_statement(job.annotation_id),
                                next: NextV::Reload,
                            }
                        } else {
                            ActionV::Idle
                        },
                    )
                },
                None => (self, ActionV::Idle),
            },
        }
    }
}

fn find_job(jobs: &[AiJob], id: u64) -> (r: Option<usize>)
    ensures
        opt_idx(r) == job_with(ai_views(jobs@), 0, id),
        r matches Some(i) ==> i < jobs@.len(),
{
    let ghost jv = ai_views(jobs@);
    let mut i: usize = 0;
    while i < jobs.len()
        invariant
            i <= jobs@.len(),
            jv == ai_views(jobs@),
            job_with(jv, 0, id) == job_with(jv, i as int, id),
        decreases jobs@.len() - i,
    {
        assert(jv[i as int] == jobs@[i as int]@);
        if jobs[i].id == id {
            return Some(i);
        }
        i = i + 1;
    }
    None
}

impl App {
    fn find_annotation_to_send(&self) -> (r: Result<Option<Annotation>, String>)
        ensures
            match self@.annotation_to_send() {
                Ok(Some(a)) => r matches Ok(Some(b)) && b@ == a,
                Ok(None) => r == Ok::<Option<Annotation>, String>(None),
                Err(e) => r matches Err(s) && s@ == e,
            },
    {
        reveal(App::model);
        reveal(AppV::annotation_to_send);
        if let Some(DisplayLine::Annotation { annotation, .. }) =
            self.screen.current_display_line() {
            return Ok(Some(annotation.clone()));
        }
        if self.mode == Mode::AnnotationList {
            let entries = self.annotation_list_entries();
            assert(crate::list::entry_views(entries@).len() == entries@.len());
            if self.annotation_list_idx >= entries.len() {
                return Err("Annotation not found".to_owned());
            }
            let id = entries[self.annotation_list_idx].id;
            assert(self@.entries()[self.annotation_list_idx as int] == entries@[
                self.annotation_list_idx as int
            ]@);
            return match crate::annotate::find_with_id(&self.all_annotations, id) {
                Some(i) => {
                    assert(self@.annotations[i as int] == self.all_annotations@[i as int]@);
                    Ok(Some(self.all_annotations[i].clone()))
                },
                None => Err("Annotation not found".to_owned()),
            };
        }
        match self.get_annotation_for_current_line() {
            Some(i) => Ok(Some(self.all_annotations[i].clone())),
            None => Ok(None),
        }
    }

    /// Adds a job for an annotation. Gives its id and the target.
    fn push_job(&mut self, a: &Annotation) -> (r: (u64, AiTarget))
        ensures
            final(self)@ == old(self)@.with_job(a@),
            r == (old(self)@.ai_next_id, old(self)@.config.ai_target),
            old(self)@.wf() ==> final(self)@.wf(),
    {
        reveal(App::model);
        reveal(AppV::with_job);
        let ghost s0 = self@;
        let id = self.ai_next_id;
        let target = self.config.ai_target;
        let job = AiJob {
            id,
            annotation_id: a.id,
            annotation_type: a.annotation_type,
            file_path: a.file_path.clone(),
            line: a.start_line,
            status: AiStatus::Running,
            output: String::new(),
            target,
        };
        assert(job@ =~= new_job(id, a@, target));
        let ghost jv = job@;
        self.ai_jobs.push(job);
        assert(self@.ai_jobs =~= s0.ai_jobs.push(jv));
        self.ai_next_id = if id == u64::MAX {
            0
        } else {
            id + 1
        };
        assert(self@ == s0.with_job(a@));
        (id, target)
    }

    /// Sends the current annotation to the AI program.
    pub fn spawn_ai_for_current_annotation(&mut self) -> (r: Action)
        requires
            old(self)@.wf(),
        ensures
            (final(self)@, r@) == old(self)@.sending(),
            final(self)@.wf(),
    {
        reveal(AppV::sending);
        match self.find_annotation_to_send() {
            Err(e) => Action::Fail(e),
            Ok(None) => {
                self.say("Move to an annotation to send to AI");
                Action::Idle
            },
            Ok(Some(a)) => {
                let prompt = build_ai_prompt(&a);
                let (job_id, target) = self.push_job(&a);
                let args = ai_command(target, prompt);
                Action::RunAi { job_id, target, args }
            },
        }
    }

    fn add_output(&mut self, job_id: u64, chunk: &str)
        ensures
            final(self)@ == old(self)@.answered(AiEventV::Output { job_id, chunk: chunk@ }).0,
            old(self)@.wf() ==> final(self)@.wf(),
    {
        reveal(App::model);
        reveal(AppV::answered);
        let ghost s0 = self@;
        if let Some(i) = find_job(&self.ai_jobs, job_id) {
            let mut job = self.ai_jobs.remove(i);
            let ghost before = job@;
            assert(s0.ai_jobs[i as int] == before);
            match job.target {
                AiTarget::Claude => {
                    match extract_claude_text(chunk) {
                        Some(text) => job.output.push_str(text.as_str()),
                        None => {},
                    }
                },
                AiTarget::Codex => job.output.push_str(chunk),
            }
            assert(job@.output =~= before.output + added_output(before.target, chunk@));
            let ghost after = job@;
            self.ai_jobs.insert(i, job);
            assert(self@.ai_jobs =~= s0.ai_jobs.update(i as int, after));
            assert(self@ == (AppV { ai_jobs: s0.ai_jobs.update(i as int, after), ..s0 }));
        }
    }

    fn finish_job(&mut self, job_id: u64, ok: bool) -> (r: Action)
        ensures
            (final(self)@, r@) == old(self)@.answered(AiEventV::Done { job_id, ok }),
            old(self)@.wf() ==> final(self)@.wf(),
    {
        reveal(App::model);
        reveal(AppV::answered);
        let ghost s0 = self@;
        if let Some(i) = find_job(&self.ai_jobs, job_id) {
            let mut job = self.ai_jobs.remove(i);
            let ghost before = job@;
            assert(s0.ai_jobs[i as int] == before);
            job.status = AiStatus::Done { ok };
            let id = job.annotation_id;
            let resolves = ok && wants_resolve(job.output.as_str(), id);
            let ghost after = job@;
            self.ai_jobs.insert(i, job);
            assert(self@.ai_jobs =~= s0.ai_jobs.update(i as int, after));
            assert(self@ == (AppV { ai_jobs: s0.ai_jobs.update(i as int, after), ..s0 }));
            if resolves {
                return Action::Store {
                    statement: Storage::resolve_annotation(id),
                    next: Next::Reload,
                };
            }
        }
        Action::Idle
    }

    /// Takes in what an AI program has done.
    pub fn handle_ai_event(&mut self, event: AiEvent) -> (r: Action)
        requires
            old(self)@.wf(),
        ensures
            (final(self)@, r@) == old(self)@.answered(event@),
            final(self)@.wf(),
    {
        match event {
            AiEvent::Output { job_id, chunk } => {
                self.add_output(job_id, chunk.as_str());
                proof {
                    reveal(AppV::answered);
                }
                Action::Idle
            },
            AiEvent::Done { job_id, ok } => self.finish_job(job_id, ok),
        }
    }
}

// ---------------------------------------------------------------------------
// Laws
// ---------------------------------------------------------------------------
/// The last line that a prompt asks for resolves the annotation that the
/// prompt is about.
pub proof fn law_asked_line_resolves(id: i64)
    ensures
        says_resolved("RESOLVE_ANNOTATION: "@ + signed_dec(id as int), id),
{
    let line = "RESOLVE_ANNOTATION: "@ + signed_dec(id as int);
    let prefix = "RESOLVE_ANNOTATION:"@;
    let number = signed_dec(id as int);
    reveal_strlit("RESOLVE_ANNOTATION: ");
    reveal_strlit("RESOLVE_ANNOTATION:");
    crate::number::law_number_round_trip(id, 0);
    lemma_number_not_white(id);
    assert(line[0] == 'R');
    assert(line.last() == number.last());
    assert(trimmed(line) == line);
    assert(line.subrange(0, prefix.len() as int) =~= prefix);
    let rest = line.skip(prefix.len() as int);
    assert(rest =~= seq![' '] + number);
    assert(rest.skip(1) =~= number);
    assert(crate::text::trimmed_start(rest) == crate::text::trimmed_start(number));
    assert(trimmed(rest) == number);
}

proof fn lemma_number_not_white(id: i64)
    ensures
        signed_dec(id as int).len() > 0,
        !crate::text::is_white(signed_dec(id as int)[0]),
        !crate::text::is_white(signed_dec(id as int).last()),
{
    let n: nat = if id < 0 {
        (-id) as nat
    } else {
        id as nat
    };
    lemma_dec_digits(n);
}

proof fn lemma_dec_digits(n: nat)
    ensures
        dec(n).len() > 0,
        '0' <= dec(n)[0] <= '9',
        '0' <= dec(n).last() <= '9',
    decreases n,
{
    if n >= 10 {
        lemma_dec_digits(n / 10);
        assert(dec(n)[0] == dec(n / 10)[0]);
    }
}

proof fn lemma_job_with(jobs: Seq<AiJobV>, i: int, id: u64, k: int)
    requires
        0 <= i <= k < jobs.len(),
        jobs[k].id == id,
        forall|j: int| i <= j < k ==> (#[trigger] jobs[j]).id != id,
    ensures
        job_with(jobs, i, id) == Some(k),
    decreases k - i,
{
    if i < k {
        lemma_job_with(jobs, i + 1, id, k);
    }
}

/// What a program writes is added to the output of its job, and its end is noted
/// there; no other job changes. The annotation is resolved exactly if the program
/// ended well and a line of its output says so.
pub proof fn law_answers_reach_their_job(s: AppV, k: int, chunk: Seq<char>, ok: bool)
    requires
        0 <= k < s.ai_jobs.len(),
        forall|j: int| 0 <= j < s.ai_jobs.len() && j != k ==> (#[trigger] s.ai_jobs[j]).id
            != s.ai_jobs[k].id,
    ensures
        ({
            let job = s.ai_jobs[k];
            let (t, a) = s.answered(AiEventV::Output { job_id: job.id, chunk });
            let (u, b) = s.answered(AiEventV::Done { job_id: job.id, ok });
            &&& t.ai_jobs.len() == s.ai_jobs.len()
            &&& u.ai_jobs.len() == s.ai_jobs.len()
            &&& forall|j: int|
                0 <= j < s.ai_jobs.len() && j != k ==> #[trigger] t.ai_jobs[j] == s.ai_jobs[j]
            &&& forall|j: int|
                0 <= j < s.ai_jobs.len() && j != k ==> #[trigger] u.ai_jobs[j] == s.ai_jobs[j]
            &&& a == ActionV::Idle
            &&& t.ai_jobs[k].id == job.id
            &&& t.ai_jobs[k].status == job.status
            &&& t.ai_jobs[k].output.len() >= job.output.len()
            &&& t.ai_jobs[k].output.take(job.output.len() as int) == job.output
            &&& job.target == AiTarget::Codex ==> t.ai_jobs[k].output == job.output + chunk
            &&& u.ai_jobs[k].status == AiStatus::Done { ok }
            &&& u.ai_jobs[k].output == job.output
            &&& ok && answer_resolves(job.output, job.annotation_id) ==> (b matches ActionV::Store {
                statement,
                next,
            } && statement == resolve_statement(job.annotation_id) && next == NextV::Reload)
            &&& !(ok && answer_resolves(job.output, job.annotation_id)) ==> b == ActionV::Idle
        }),
{
    reveal(AppV::answered);
    lemma_job_with(s.ai_jobs, 0, s.ai_jobs[k].id, k);
    let job = s.ai_jobs[k];
    let more = job.output + added_output(job.target, chunk);
    assert(more.take(job.output.len() as int) =~= job.output);
}

/// A line that names another annotation does not resolve this one.
pub proof fn law_other_id_stays(id: i64, other: i64)
    requires
        id != other,
    ensures
        !says_resolved("RESOLVE_ANNOTATION: "@ + signed_dec(other as int), id),
{
    let line = "RESOLVE_ANNOTATION: "@ + signed_dec(other as int);
    let prefix = "RESOLVE_ANNOTATION:"@;
    let number = signed_dec(other as int);
    reveal_strlit("RESOLVE_ANNOTATION: ");
    reveal_strlit("RESOLVE_ANNOTATION:");
    reveal_strlit("RESOLVE_ANNOTATION");
    crate::number::law_number_round_trip(other, 0);
    lemma_number_not_white(other);
    assert(line[0] == 'R');
    assert(line.last() == number.last());
    assert(trimmed(line) == line);
    assert(line.len() > 19);
    assert(line.subrange(0, prefix.len() as int) =~= prefix);
    let rest = line.skip(prefix.len() as int);
    assert(rest =~= seq![' '] + number);
    assert(rest.skip(1) =~= number);
    assert(crate::text::trimmed_start(rest) == crate::text::trimmed_start(number));
    assert(trimmed(rest) == number);
}

/// A prompt tells of the annotation: its id, its file, the line that it begins at,
/// its side, its type and its text with the code around it; and it ends with the line
/// that would resolve this annotation.
pub proof fn law_prompt_tells(a: AnnotationV) -> (r: (Seq<char>, Seq<char>))
    ensures
        ({
            let (id, line) = r;
            &&& i64_value(id) == Some(a.id)
            &&& crate::number::u32_value(line) == Some(a.start_line)
            &&& exists|front: Seq<char>|
                prompt_of(a) == #[trigger] (front + id) + "\n- File: "@ + a.file_path
                    + "\n- Line: "@ + line + "\n- Side: "@ + (if a.side == crate::storage::Side::Old {
                    "old"@
                } else {
                    "new"@
                }) + "\n- Type: "@ + (if a.annotation_type
                    == crate::storage::AnnotationType::Todo {
                    "todo"@
                } else {
                    "comment"@
                }) + "\n"@ + "\nAnnotation:\n"@ + a.content + "\n\nContext (before):\n"@
                    + a.context_before + "\n\nContext (after):\n"@ + a.context_after
                    + "\n\nIf you complete the task, output a single line:\n"@
                    + "RESOLVE_ANNOTATION: "@ + id + "\n"@
        }),
{
    crate::number::law_number_round_trip(a.id, a.start_line);
    let id = signed_dec(a.id as int);
    let front = "You are a coding agent. Use the instruction below to act.\n\n"@ + "Instruction:\n"@
        + "- Annotation ID: "@;
    let whole = front + id;
    assert(prompt_of(a) == whole + "\n- File: "@ + a.file_path + "\n- Line: "@ + dec(
        a.start_line as nat,
    ) + "\n- Side: "@ + stored_side(a.side) + "\n- Type: "@ + stored_type(a.annotation_type) + "\n"@
        + "\nAnnotation:\n"@ + a.content + "\n\nContext (before):\n"@ + a.context_before
        + "\n\nContext (after):\n"@ + a.context_after
        + "\n\nIf you complete the task, output a single line:\n"@ + "RESOLVE_ANNOTATION: "@ + id
        + "\n"@);
    (id, dec(a.start_line as nat))
}

/// Sending an annotation makes a job for it, under an id that is not given again at
/// once, and hands its prompt to the program as the last argument.
pub proof fn law_sent_annotation(s: AppV, a: AnnotationV)
    requires
        s.annotation_to_send() == Ok::<Option<AnnotationV>, Seq<char>>(Some(a)),
    ensures
        ({
            let (t, action) = s.sending();
            &&& t.ai_jobs.len() == s.ai_jobs.len() + 1
            &&& t.ai_jobs.drop_last() == s.ai_jobs
            &&& t.ai_jobs.last().annotation_id == a.id
            &&& t.ai_jobs.last().file_path == a.file_path
            &&& t.ai_jobs.last().line == a.start_line
            &&& t.ai_jobs.last().status == AiStatus::Running
            &&& t.ai_jobs.last().output.len() == 0
            &&& t.ai_next_id != s.ai_next_id
            &&& action matches ActionV::RunAi { job_id, target, args } && job_id
                == t.ai_jobs.last().id && target == s.config.ai_target && args.last() == prompt_of(
                a,
            )
        }),
{
    reveal(AppV::sending);
    reveal(AppV::with_job);
    assert(s.with_job(a).ai_jobs.drop_last() =~= s.ai_jobs);
}

/// What is sent is the annotation that the cursor is on, or else in the list the
/// selected one, or else the one of the cursor's line.
pub proof fn law_annotation_to_send(s: AppV)
    ensures
        s.screen.line(s.screen.cursor) matches Some(DisplayLineV::Annotation { annotation, .. })
            ==> s.annotation_to_send() == Ok::<Option<AnnotationV>, Seq<char>>(Some(annotation)),
        s.screen.line(s.screen.cursor) is Some && s.screen.lines[s.screen.cursor] is Diff && s.mode
            != Mode::AnnotationList ==> (match s.annotation_here() {
            Some(i) => s.annotation_to_send() == Ok::<Option<AnnotationV>, Seq<char>>(
                Some(s.annotations[i]),
            ),
            None => s.annotation_to_send() == Ok::<Option<AnnotationV>, Seq<char>>(None),
        }),
{
    reveal(AppV::annotation_to_send);
}

} // verus!
