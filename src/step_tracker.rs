use vstd::prelude::*;

use crate::text::{chars_of, contains_chars, contains_seq, push_str, str_eq};

verus! {

/// A coarse phase of an agent's work.
#[derive(Debug, Clone, Copy, PartialEq, Eq, Structural)]
pub enum StepType {
    Analysis,
    Design,
    Implementation,
    Verification,
}

impl StepType {
    pub open spec fn spec_label(self) -> Seq<char> {
        match self {
            StepType::Analysis => "ANALYSIS"@,
            StepType::Design => "DESIGN"@,
            StepType::Implementation => "IMPLEMENTATION"@,
            StepType::Verification => "VERIFICATION"@,
        }
    }

    pub open spec fn spec_lower_label(self) -> Seq<char> {
        match self {
            StepType::Analysis => "analysis"@,
            StepType::Design => "design"@,
            StepType::Implementation => "implementation"@,
            StepType::Verification => "verification"@,
        }
    }

    /// The phase's name as the tracker reports it.
    pub fn label(&self) -> (r: String)
        ensures
            r@ == self.spec_label(),
    {
        match self {
            StepType::Analysis => String::from_str("ANALYSIS"),
            StepType::Design => String::from_str("DESIGN"),
            StepType::Implementation => String::from_str("IMPLEMENTATION"),
            StepType::Verification => String::from_str("VERIFICATION"),
        }
    }

    fn lower_label(&self) -> (r: String)
        ensures
            r@ == self.spec_lower_label(),
    {
        match self {
            StepType::Analysis => String::from_str("analysis"),
            StepType::Design => String::from_str("design"),
            StepType::Implementation => String::from_str("implementation"),
            StepType::Verification => String::from_str("verification"),
        }
    }
}

/// The lower-case form of a text, as `str::to_lowercase` gives it.
pub uninterp spec fn lower_of(s: Seq<char>) -> Seq<char>;

/// Relies on `str::to_lowercase`: the Unicode lower-case form, a function of the text alone.
#[verifier::external_body]
fn lowercase(s: &str) -> (r: String)
    ensures
        r@ == lower_of(s@),
{
    s.to_lowercase()
}

/// Words in a shell command that mark it as running tests.
pub open spec fn is_test_text(c: Seq<char>) -> bool {
    contains_seq(c, "test"@) || contains_seq(c, "jest"@) || contains_seq(c, "pytest"@)
        || contains_seq(c, "npm run test"@) || contains_seq(c, "./gradlew test"@) || contains_seq(
        c,
        "mvn test"@,
    ) || contains_seq(c, "cargo test"@)
}

/// Whether a shell command runs tests, case aside.
pub open spec fn is_test_command_spec(command: Option<Seq<char>>) -> bool {
    match command {
        Some(c) => is_test_text(lower_of(c)),
        None => false,
    }
}

/// Whether a shell command runs tests, case aside.
pub fn is_test_command(command: Option<&str>) -> (r: bool)
    ensures
        r == is_test_command_spec(
            match command {
                Some(c) => Some(c@),
                None => None,
            },
        ),
{
    match command {
        None => false,
        Some(c) => {
            let l = lowercase(c);
            let lc = chars_of(l.as_str());
            contains_chars(&lc, &chars_of("test")) || contains_chars(&lc, &chars_of("jest"))
                || contains_chars(&lc, &chars_of("pytest")) || contains_chars(
                &lc,
                &chars_of("npm run test"),
            ) || contains_chars(&lc, &chars_of("./gradlew test")) || contains_chars(
                &lc,
                &chars_of("mvn test"),
            ) || contains_chars(&lc, &chars_of("cargo test"))
        },
    }
}

/// The phase a tool belongs to; `Bash` by its command. Other tools count for none.
pub open spec fn tool_step(name: Seq<char>, command: Option<Seq<char>>) -> Option<StepType> {
    if name == "Read"@ || name == "Glob"@ || name == "Grep"@ || name == "WebFetch"@ || name
        == "WebSearch"@ {
        Some(StepType::Analysis)
    } else if name == "EnterPlanMode"@ || name == "ExitPlanMode"@ || name == "TaskCreate"@ || name
        == "TaskUpdate"@ || name == "TaskList"@ || name == "TaskGet"@ {
        Some(StepType::Design)
    } else if name == "Edit"@ || name == "Write"@ || name == "NotebookEdit"@ {
        Some(StepType::Implementation)
    } else if name == "Bash"@ {
        if is_test_command_spec(command) {
            Some(StepType::Verification)
        } else {
            Some(StepType::Implementation)
        }
    } else {
        None
    }
}

/// The phase a tool call belongs to.
pub fn tool_to_step_type(name: &str, command: Option<&str>) -> (r: Option<StepType>)
    ensures
        r == tool_step(
            name@,
            match command {
                Some(c) => Some(c@),
                None => None,
            },
        ),
{
    if str_eq(name, "Read") || str_eq(name, "Glob") || str_eq(name, "Grep") || str_eq(
        name,
        "WebFetch",
    ) || str_eq(name, "WebSearch") {
        Some(StepType::Analysis)
    } else if str_eq(name, "EnterPlanMode") || str_eq(name, "ExitPlanMode") || str_eq(
        name,
        "TaskCreate",
    ) || str_eq(name, "TaskUpdate") || str_eq(name, "TaskList") || str_eq(name, "TaskGet") {
        Some(StepType::Design)
    } else if str_eq(name, "Edit") || str_eq(name, "Write") || str_eq(name, "NotebookEdit") {
        Some(StepType::Implementation)
    } else if str_eq(name, "Bash") {
        if is_test_command(command) {
            Some(StepType::Verification)
        } else {
            Some(StepType::Implementation)
        }
    } else {
        None
    }
}

/// A phase report for the external tracker.
#[derive(Debug, Clone)]
pub struct StepUpdateData {
    pub step_type: String,
    pub status: String,
    pub progress: Option<i32>,
    pub message: Option<String>,
    pub tool_name: Option<String>,
}

/// `u` reports that phase `s` is under way with tool `tool`; `started` tells
/// whether the phase has just begun.
pub open spec fn is_in_progress(u: StepUpdateData, s: StepType, tool: Seq<char>, started: bool) -> bool {
    &&& u.step_type@ == s.spec_label()
    &&& u.status@ == "IN_PROGRESS"@
    &&& u.progress is None
    &&& u.message is Some
    &&& u.message->0@ == if started {
        "Started "@ + s.spec_lower_label() + " with "@ + tool
    } else {
        "Using "@ + tool
    }
    &&& u.tool_name is Some
    &&& u.tool_name->0@ == tool
}

/// `u` reports that phase `s` is finished.
pub open spec fn is_completed(u: StepUpdateData, s: StepType) -> bool {
    &&& u.step_type@ == s.spec_label()
    &&& u.status@ == "COMPLETED"@
    &&& u.progress == Some(100i32)
    &&& u.message is Some
    &&& u.message->0@ == "Step completed"@
    &&& u.tool_name is None
}

fn in_progress(s: StepType, tool: &str, started: bool) -> (r: StepUpdateData)
    ensures
        is_in_progress(r, s, tool@, started),
{
    let message = if started {
        let mut m = String::from_str("Started ");
        let l = s.lower_label();
        push_str(&mut m, l.as_str());
        push_str(&mut m, " with ");
        push_str(&mut m, tool);
        m
    } else {
        let mut m = String::from_str("Using ");
        push_str(&mut m, tool);
        m
    };
    StepUpdateData {
        step_type: s.label(),
        status: String::from_str("IN_PROGRESS"),
        progress: None,
        message: Some(message),
        tool_name: Some(String::from_str(tool)),
    }
}

fn completed(s: StepType) -> (r: StepUpdateData)
    ensures
        is_completed(r, s),
{
    StepUpdateData {
        step_type: s.label(),
        status: String::from_str("COMPLETED"),
        progress: Some(100),
        message: Some(String::from_str("Step completed")),
        tool_name: None,
    }
}

/// One session's phases: the current one and those finished, in order.
pub struct SessionSteps {
    pub session_id: String,
    pub current: Option<StepType>,
    pub completed: Vec<StepType>,
}

/// The phases of a session in `rows`: none current and none finished where it has no row.
pub open spec fn steps_in(rows: Seq<SessionSteps>, sid: Seq<char>) -> (Option<StepType>, Seq<StepType>) {
    if exists|i: int| 0 <= i < rows.len() && rows[i].session_id@ == sid {
        let i = choose|i: int| 0 <= i < rows.len() && rows[i].session_id@ == sid;
        (rows[i].current, rows[i].completed@)
    } else {
        (None, Seq::empty())
    }
}

pub open spec fn ids_unique(rows: Seq<SessionSteps>) -> bool {
    forall|i: int, j: int|
        0 <= i < rows.len() && 0 <= j < rows.len() && rows[i].session_id@ == rows[j].session_id@
            ==> i == j
}

proof fn lemma_steps_in(rows: Seq<SessionSteps>, sid: Seq<char>, i: int)
    requires
        ids_unique(rows),
        0 <= i < rows.len(),
        rows[i].session_id@ == sid,
    ensures
        steps_in(rows, sid) == (rows[i].current, rows[i].completed@),
{
    let k = choose|k: int| 0 <= k < rows.len() && rows[k].session_id@ == sid;
    assert(rows[k].session_id@ == rows[i].session_id@);
}

/// Tracks, per session, the phase under way and the phases finished.
pub struct StepTracker {
    rows: Vec<SessionSteps>,
}

impl StepTracker {
    pub closed spec fn spec_rows(&self) -> Seq<SessionSteps> {
        self.rows@
    }

    pub open spec fn wf(&self) -> bool {
        ids_unique(self.spec_rows())
    }

    /// The phases of session `sid`.
    pub open spec fn steps(&self, sid: Seq<char>) -> (Option<StepType>, Seq<StepType>) {
        steps_in(self.spec_rows(), sid)
    }

    pub fn new() -> (r: Self)
        ensures
            r.wf(),
            forall|sid: Seq<char>| #[trigger] r.steps(sid) == (None::<StepType>, Seq::<StepType>::empty()),
    {
        StepTracker { rows: Vec::new() }
    }

    fn find(&self, sid: &str) -> (r: Option<usize>)
        requires
            self.wf(),
        ensures
            match r {
                Some(i) => i < self.spec_rows().len() && self.spec_rows()[i as int].session_id@
                    == sid@,
                None => forall|i: int|
                    0 <= i < self.spec_rows().len() ==> self.spec_rows()[i].session_id@ != sid@,
            },
    {
        let mut i: usize = 0;
        while i < self.rows.len()
            invariant
                i <= self.rows@.len(),
                forall|j: int| 0 <= j < i ==> self.rows@[j].session_id@ != sid@,
            decreases self.rows.len() - i,
        {
            if str_eq(self.rows[i].session_id.as_str(), sid) {
                return Some(i);
            }
            i = i + 1;
        }
        None
    }

    /// Set the phases of a session, other sessions untouched.
    fn put(&mut self, sid: &str, current: Option<StepType>, done: Vec<StepType>)
        requires
            old(self).wf(),
        ensures
            final(self).wf(),
            final(self).steps(sid@) == (current, done@),
            forall|other: Seq<char>| other != sid@ ==> #[trigger] final(self).steps(other) == old(self).steps(other),
    {
        let ghost before = self.rows@;
        match self.find(sid) {
            Some(i) => {
                self.rows[i].current = current;
                self.rows[i].completed = done;
                proof {
                    let a = self.rows@;
                    assert forall|x: int, y: int|
                        0 <= x < a.len() && 0 <= y < a.len() && a[x].session_id@ == a[y].session_id@ implies x
                        == y by {
                        assert(a[x].session_id == before[x].session_id);
                        assert(a[y].session_id == before[y].session_id);
                    }
                    lemma_steps_in(a, sid@, i as int);
                    assert forall|other: Seq<char>| other != sid@ implies #[trigger] steps_in(a, other)
                        == steps_in(before, other) by {
                        if exists|k: int| 0 <= k < before.len() && before[k].session_id@ == other {
                            let k = choose|k: int| 0 <= k < before.len() && before[k].session_id@ == other;
                            lemma_steps_in(before, other, k);
                            assert(a[k] == before[k]);
                            lemma_steps_in(a, other, k);
                        } else {
                            assert forall|k: int| 0 <= k < a.len() implies a[k].session_id@ != other by {
                                assert(a[k].session_id == before[k].session_id);
                            }
                        }
                    }
                }
            },
            None => {
                self.rows.push(SessionSteps { session_id: String::from_str(sid), current, completed: done });
                proof {
                    let a = self.rows@;
                    let n = before.len() as int;
                    assert forall|x: int, y: int|
                        0 <= x < a.len() && 0 <= y < a.len() && a[x].session_id@ == a[y].session_id@ implies x
                        == y by {
                        if x < n {
                            assert(a[x] == before[x]);
                        }
                        if y < n {
                            assert(a[y] == before[y]);
                        }
                    }
                    lemma_steps_in(a, sid@, n);
                    assert forall|other: Seq<char>| other != sid@ implies #[trigger] steps_in(a, other)
                        == steps_in(before, other) by {
                        if exists|k: int| 0 <= k < before.len() && before[k].session_id@ == other {
                            let k = choose|k: int| 0 <= k < before.len() && before[k].session_id@ == other;
                            lemma_steps_in(before, other, k);
                            assert(a[k] == before[k]);
                            lemma_steps_in(a, other, k);
                        } else {
                            assert forall|k: int| 0 <= k < a.len() implies a[k].session_id@ != other by {
                                if k < n {
                                    assert(a[k] == before[k]);
                                }
                            }
                        }
                    }
                }
            },
        }
    }

    /// The phases of a session, copied out.
    fn get(&self, sid: &str) -> (r: (Option<StepType>, Vec<StepType>))
        requires
            self.wf(),
        ensures
            (r.0, r.1@) == self.steps(sid@),
    {
        match self.find(sid) {
            Some(i) => {
                proof {
                    lemma_steps_in(self.rows@, sid@, i as int);
                }
                let mut done: Vec<StepType> = Vec::new();
                let src = &self.rows[i].completed;
                let mut k: usize = 0;
                while k < src.len()
                    invariant
                        k <= src@.len(),
                        done@ == src@.take(k as int),
                    decreases src.len() - k,
                {
                    done.push(src[k]);
                    k = k + 1;
                    assert(done@ =~= src@.take(k as int));
                }
                assert(src@.take(src@.len() as int) =~= src@);
                (self.rows[i].current, done)
            },
            None => (None, Vec::new()),
        }
    }

    /// Record a tool call of a session. A call in the phase under way reports
    /// progress; one in another phase finishes the current phase, records it,
    /// and starts the new one. Tools outside the phases change nothing.
    pub fn process_tool_use(&mut self, session_id: &str, tool_name: &str, command: Option<&str>) -> (r: (
        Option<StepUpdateData>,
        Option<StepUpdateData>,
    ))
        requires
            old(self).wf(),
        ensures
            final(self).wf(),
            forall|other: Seq<char>| other != session_id@ ==> #[trigger] final(self).steps(other) == old(self).steps(other),
            match tool_step(
                tool_name@,
                match command {
                    Some(c) => Some(c@),
                    None => None,
                },
            ) {
                None => r.0 is None && r.1 is None && final(self).steps(session_id@) == old(self).steps(session_id@),
                Some(s) => {
                    let (cur, done) = old(self).steps(session_id@);
                    if cur == Some(s) {
                        r.0 is None && r.1 is Some && is_in_progress(r.1->0, s, tool_name@, false)
                            && final(self).steps(session_id@) == old(self).steps(session_id@)
                    } else {
                        r.1 is Some && is_in_progress(r.1->0, s, tool_name@, true) && match cur {
                            Some(p) => r.0 is Some && is_completed(r.0->0, p) && final(self).steps(
                                session_id@,
                            ) == (Some(s), done.push(p)),
                            None => r.0 is None && final(self).steps(session_id@) == (Some(s), done),
                        }
                    }
                },
            },
    {
        let step = match tool_to_step_type(tool_name, command) {
            Some(s) => s,
            None => return (None, None),
        };
        let (cur, mut done) = self.get(session_id);
        match cur {
            Some(p) => {
                if p == step {
                    return (None, Some(in_progress(step, tool_name, false)));
                }
                done.push(p);
                self.put(session_id, Some(step), done);
                (Some(completed(p)), Some(in_progress(step, tool_name, true)))
            },
            None => {
                self.put(session_id, Some(step), done);
                (None, Some(in_progress(step, tool_name, true)))
            },
        }
    }

    /// Finish the phase under way of a session, at the end of its stream.
    pub fn complete_current_step(&mut self, session_id: &str) -> (r: Option<StepUpdateData>)
        requires
            old(self).wf(),
        ensures
            final(self).wf(),
            forall|other: Seq<char>| other != session_id@ ==> #[trigger] final(self).steps(other) == old(self).steps(other),
            match old(self).steps(session_id@).0 {
                Some(p) => r is Some && is_completed(r->0, p) && final(self).steps(session_id@) == (
                None::<StepType>, old(self).steps(session_id@).1.push(p)),
                None => r is None && final(self).steps(session_id@) == old(self).steps(session_id@),
            },
    {
        let (cur, mut done) = self.get(session_id);
        match cur {
            Some(p) => {
                done.push(p);
                self.put(session_id, None, done);
                Some(completed(p))
            },
            None => None,
        }
    }

    /// The phases a session has finished, in order.
    pub fn get_completed_steps(&self, session_id: &str) -> (r: Vec<StepType>)
        requires
            self.wf(),
        ensures
            r@ == self.steps(session_id@).1,
    {
        self.get(session_id).1
    }

    /// Forget a session.
    pub fn clear_session(&mut self, session_id: &str)
        requires
            old(self).wf(),
        ensures
            final(self).wf(),
            final(self).steps(session_id@) == (None::<StepType>, Seq::<StepType>::empty()),
            forall|other: Seq<char>| other != session_id@ ==> #[trigger] final(self).steps(other) == old(self).steps(other),
    {
        self.put(session_id, None, Vec::new());
    }
}

} // verus!
