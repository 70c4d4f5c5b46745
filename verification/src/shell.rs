//! The shell panel: a command typed in the palette, run in the user's login
//! shell, and its output.

use crate::paths;
use crate::text;
use vstd::prelude::*;
use vstd::string::*;

verus! {

/// Where a line of the panel comes from.
#[derive(Debug, Clone, Copy, PartialEq, Eq, Structural)]
pub enum ShellStream {
    Stdout,
    Stderr,
    Status,
}

/// A line of the panel.
#[derive(Debug, Clone, PartialEq, Eq)]
pub struct ShellLine {
    pub stream: ShellStream,
    pub text: String,
}

/// What a [`ShellLine`] holds.
pub struct ShellLineView {
    pub stream: ShellStream,
    pub text: Seq<char>,
}

impl View for ShellLine {
    type V = ShellLineView;

    open spec fn view(&self) -> ShellLineView {
        ShellLineView { stream: self.stream, text: self.text@ }
    }
}

/// What each line of a list holds.
pub open spec fn line_views(list: Seq<ShellLine>) -> Seq<ShellLineView> {
    list.map_values(|l: ShellLine| l@)
}

/// What a running command reports.
#[derive(Debug)]
pub enum ShellEvent {
    /// A line of its output.
    Line(ShellLine),
    /// It ended with this code.
    Exit(i32),
    /// It could not be started, and why.
    SpawnError(String),
}

/// What a [`ShellEvent`] holds.
pub enum ShellEventView {
    Line(ShellLineView),
    Exit(i32),
    SpawnError(Seq<char>),
}

impl View for ShellEvent {
    type V = ShellEventView;

    open spec fn view(&self) -> ShellEventView {
        match self {
            ShellEvent::Line(line) => ShellEventView::Line(line@),
            ShellEvent::Exit(code) => ShellEventView::Exit(*code),
            ShellEvent::SpawnError(message) => ShellEventView::SpawnError(message@),
        }
    }
}

/// What each event of a list holds.
pub open spec fn event_views(list: Seq<ShellEvent>) -> Seq<ShellEventView> {
    list.map_values(|e: ShellEvent| e@)
}

/// The line that stands for a failure to read the output.
pub open spec fn read_failure(stream: ShellStream, why: Seq<char>) -> Seq<char> {
    match stream {
        ShellStream::Stdout => "read stdout failed: "@ + why,
        _ => "read stderr failed: "@ + why,
    }
}

/// The report of a line that was read from a stream, or that could not be, and
/// why.
pub open spec fn line_read(
    stream: ShellStream,
    line: Result<Seq<char>, Seq<char>>,
) -> ShellEventView {
    ShellEventView::Line(
        ShellLineView {
            stream,
            text: match line {
                Ok(text) => text,
                Err(why) => read_failure(stream, why),
            },
        },
    )
}

/// The code that a command ended with; one without a code counts as failed.
pub open spec fn exit_code(code: Option<i32>) -> i32 {
    match code {
        Some(code) => code,
        None => 1,
    }
}

impl ShellEvent {
    /// A line that was read from a stream, or that could not be, and why.
    pub fn read(stream: ShellStream, line: Result<String, String>) -> (r: ShellEvent)
        requires
            stream != ShellStream::Status,
        ensures
            line is Ok ==> r@ == line_read(stream, Ok(line->Ok_0@)),
            line is Err ==> r@ == line_read(stream, Err(line->Err_0@)),
            r@ == ShellEventView::Line(
                (ShellLineView {
                    stream,
                    text: match line {
                        Ok(text) => text@,
                        Err(why) => read_failure(stream, why@),
                    },
                }),
            ),
    {
        let text = match line {
            Ok(text) => text,
            Err(why) => {
                let mut text = match stream {
                    ShellStream::Stdout => "read stdout failed: ".to_owned(),
                    _ => "read stderr failed: ".to_owned(),
                };
                text.append(why.as_str());
                text
            },
        };
        ShellEvent::Line(ShellLine { stream, text })
    }

    /// The command ended. One that ended without a code counts as failed.
    pub fn exited(code: Option<i32>) -> (r: ShellEvent)
        ensures
            r@ == ShellEventView::Exit(exit_code(code)),
            r@ == ShellEventView::Exit(
                match code {
                    Some(code) => code,
                    None => 1,
                },
            ),
    {
        match code {
            Some(code) => ShellEvent::Exit(code),
            None => ShellEvent::Exit(1),
        }
    }
}

/// How a shell takes a command to run as a login shell.
#[derive(Debug, Clone, Copy, PartialEq, Eq, Structural)]
pub enum ShellCommandStyle {
    DashLoginCommand,
    LongLoginCommand,
    PowerShellLoginCommand,
}

/// The user's shell.
#[derive(Debug, Clone, PartialEq, Eq)]
pub struct ShellCommandSpec {
    pub program: String,
    pub label: String,
    pub style: ShellCommandStyle,
}

/// The arguments that make a shell run a command.
pub open spec fn command_args(style: ShellCommandStyle, command: Seq<char>) -> Seq<Seq<char>> {
    match style {
        ShellCommandStyle::DashLoginCommand => seq!["-lc"@, command],
        ShellCommandStyle::LongLoginCommand => seq!["--login"@, "-c"@, command],
        ShellCommandStyle::PowerShellLoginCommand => seq!["-Login"@, "-Command"@, command],
    }
}

/// The name of a shell: the last name of its program's path, without the
/// dashes that mark a login shell.
pub open spec fn shell_name(program: Seq<char>) -> Seq<char> {
    text::strip_leading(
        match paths::base_name(program) {
            Some(name) => name,
            None => program,
        },
        '-',
    )
}

/// How the shell of that name takes a command.
pub open spec fn style_of(name: Seq<char>) -> ShellCommandStyle {
    if name == "nu"@ || name == "nushell"@ || name == "fish"@ {
        ShellCommandStyle::LongLoginCommand
    } else if name == "pwsh"@ || name == "powershell"@ {
        ShellCommandStyle::PowerShellLoginCommand
    } else {
        ShellCommandStyle::DashLoginCommand
    }
}

/// The program of the login shell: the one that the environment names, else
/// `bash`.
pub open spec fn login_program(shell: Option<Seq<char>>) -> Seq<char> {
    match shell {
        Some(program) => program,
        None => "bash"@,
    }
}

impl ShellCommandSpec {
    /// The arguments that make the shell run `command`.
    pub fn args_for(&self, command: &str) -> (r: Vec<String>)
        ensures
            text::texts(r@) == command_args(self.style, command@),
    {
        let mut args: Vec<String> = Vec::new();
        match self.style {
            ShellCommandStyle::DashLoginCommand => {
                args.push("-lc".to_owned());
            },
            ShellCommandStyle::LongLoginCommand => {
                args.push("--login".to_owned());
                args.push("-c".to_owned());
            },
            ShellCommandStyle::PowerShellLoginCommand => {
                args.push("-Login".to_owned());
                args.push("-Command".to_owned());
            },
        }
        args.push(command.to_owned());
        assert(text::texts(args@) =~= command_args(self.style, command@));
        args
    }
}

/// The name of a shell.
pub fn shell_label(program: &str) -> (r: String)
    ensures
        r@ == shell_name(program@),
{
    match paths::file_name(program) {
        Some(name) => text::trim_leading(name.as_str(), '-'),
        None => text::trim_leading(program, '-'),
    }
}

/// The shell of a program.
pub fn shell_command_spec_for(program: &str) -> (r: ShellCommandSpec)
    ensures
        r.program@ == program@,
        r.label@ == shell_name(program@),
        r.style == style_of(shell_name(program@)),
{
    let label = shell_label(program);
    let name = label.as_str();
    let style = if name.eq("nu") || name.eq("nushell") || name.eq("fish") {
        ShellCommandStyle::LongLoginCommand
    } else if name.eq("pwsh") || name.eq("powershell") {
        ShellCommandStyle::PowerShellLoginCommand
    } else {
        ShellCommandStyle::DashLoginCommand
    };
    ShellCommandSpec { program: program.to_owned(), label, style }
}

/// The login shell, by what the environment names.
pub fn login_shell_command_spec(shell: Option<&str>) -> (r: ShellCommandSpec)
    ensures
        r.program@ == login_program(text::opt_str(shell)),
        r.label@ == shell_name(login_program(text::opt_str(shell))),
        r.style == style_of(shell_name(login_program(text::opt_str(shell)))),
{
    match shell {
        Some(program) => shell_command_spec_for(program),
        None => shell_command_spec_for("bash"),
    }
}

/// The characters that make a command more than one simple invocation.
pub open spec fn compound(c: char) -> bool {
    c == ';' || c == '&' || c == '|' || c == '>' || c == '<' || c == '$' || c == '\\' || c == '\n' || c
        == '\r'
}

/// Whether the words are a `herdr` command that creates a workspace, tab or
/// pane.
pub open spec fn creates(words: Seq<Seq<char>>) -> bool {
    &&& words.len() >= 3
    &&& text::ends_in(words[0], "herdr"@)
    &&& {
        ||| words[1] == "workspace"@ && words[2] == "create"@
        ||| words[1] == "tab"@ && words[2] == "create"@
        ||| words[1] == "pane"@ && words[2] == "create"@
        ||| words[1] == "pane"@ && words[2] == "split"@
    }
}

/// Whether a command, without whitespace around it, is a simple `herdr`
/// creation that does not ask for the focus itself.
pub open spec fn lacks_focus(command: Seq<char>) -> bool {
    &&& forall|i: int| 0 <= i < command.len() ==> !compound(#[trigger] command[i])
    &&& creates(text::words(command))
    &&& !text::words(command).contains("--focus"@)
}

/// The command, with `--focus` where it creates something and lacks it.
pub open spec fn with_focus(command: Seq<char>) -> Seq<char> {
    if lacks_focus(text::trimmed(command)) {
        text::trimmed(command) + " --focus"@
    } else {
        text::trimmed(command)
    }
}

/// Whether the characters of `s` make a compound command.
fn is_compound(s: &str) -> (r: bool)
    ensures
        r == !(forall|i: int| 0 <= i < s@.len() ==> !compound(#[trigger] s@[i])),
{
    let cs = text::chars_of(s);
    let mut i: usize = 0;
    while i < cs.len()
        invariant
            i <= cs@.len(),
            cs@ == s@,
            forall|j: int| 0 <= j < i ==> !compound(#[trigger] s@[j]),
        decreases cs@.len() - i,
    {
        let c = cs[i];
        if c == ';' || c == '&' || c == '|' || c == '>' || c == '<' || c == '$' || c == '\\' || c
            == '\n' || c == '\r' {
            assert(compound(s@[i as int]));
            return true;
        }
        i += 1;
    }
    false
}

/// When a user types a Herdr creation command, append `--focus` so that they
/// land inside the thing they created. Compound commands are left alone.
pub fn inject_focus_for_herdr_create(command: &str) -> (r: String)
    ensures
        r@ == with_focus(command@),
{
    let trimmed = text::trim(command);
    if is_compound(trimmed.as_str()) {
        return trimmed;
    }
    let words = text::split_runs(trimmed.as_str(), text::Separator::White);
    assert(text::texts(words@) == text::words(trimmed@));
    if words.len() < 3 {
        return trimmed;
    }
    let kind = words[1].as_str();
    let sub = words[2].as_str();
    assert(text::texts(words@)[0] == words@[0]@);
    let is_create = text::ends_with(words[0].as_str(), "herdr") && ((kind.eq("workspace")
        && sub.eq("create")) || (kind.eq("tab") && sub.eq("create")) || (kind.eq("pane") && sub.eq(
        "create",
    )) || (kind.eq("pane") && sub.eq("split")));
    if !is_create || text::has_text(&words, "--focus") {
        return trimmed;
    }
    let mut out = trimmed;
    out.append(" --focus");
    out
}

/// A command for the shell panel's host to start.
#[derive(Debug)]
pub struct Launch {
    pub program: String,
    pub args: Vec<String>,
    /// The directory to start it in.
    pub cwd: String,
}

/// What a [`Launch`] holds.
pub struct LaunchView {
    pub program: Seq<char>,
    pub args: Seq<Seq<char>>,
    pub cwd: Seq<char>,
}

impl View for Launch {
    type V = LaunchView;

    open spec fn view(&self) -> LaunchView {
        LaunchView {
            program: self.program@,
            args: text::texts(self.args@),
            cwd: self.cwd@,
        }
    }
}

/// The shell panel.
#[derive(Debug)]
pub struct ShellPanel {
    pub input: String,
    /// The command that was last started.
    pub command: Option<String>,
    pub shell_label: String,
    pub lines: Vec<ShellLine>,
    /// Whether reports of the command are still awaited.
    pub listening: bool,
    pub running: bool,
    pub cwd: String,
}

/// What a [`ShellPanel`] holds.
#[verifier::ext_equal]
pub struct ShellPanelView {
    pub input: Seq<char>,
    pub command: Option<Seq<char>>,
    pub shell_label: Seq<char>,
    pub lines: Seq<ShellLineView>,
    pub listening: bool,
    pub running: bool,
    pub cwd: Seq<char>,
}

impl View for ShellPanel {
    type V = ShellPanelView;

    open spec fn view(&self) -> ShellPanelView {
        ShellPanelView {
            input: self.input@,
            command: text::opt_text(self.command),
            shell_label: self.shell_label@,
            lines: line_views(self.lines@),
            listening: self.listening,
            running: self.running,
            cwd: self.cwd@,
        }
    }
}

/// The line that reports how a command ended.
pub open spec fn status_line(text: Seq<char>) -> ShellLineView {
    ShellLineView { stream: ShellStream::Status, text }
}

impl ShellPanelView {
    /// The panel before anything was typed.
    pub open spec fn fresh(cwd: Seq<char>, shell: Option<Seq<char>>) -> ShellPanelView {
        ShellPanelView {
            input: Seq::empty(),
            command: None,
            shell_label: shell_name(login_program(shell)),
            lines: Seq::empty(),
            listening: false,
            running: false,
            cwd,
        }
    }

    /// The panel without input.
    pub open spec fn entered(self) -> ShellPanelView {
        ShellPanelView { input: Seq::empty(), ..self }
    }

    /// The panel without input, command and output.
    pub open spec fn cleared(self) -> ShellPanelView {
        ShellPanelView {
            input: Seq::empty(),
            command: None,
            lines: Seq::empty(),
            listening: false,
            running: false,
            ..self
        }
    }

    /// The command that Enter starts.
    pub open spec fn typed_command(self) -> Seq<char> {
        with_focus(text::trimmed(self.input))
    }

    /// Whether Enter starts a command: one was typed and none is running.
    pub open spec fn can_start(self) -> bool {
        self.typed_command().len() > 0 && !self.running
    }

    /// Whether Enter closes the panel: nothing is typed and nothing is running.
    pub open spec fn closes_on_enter(self) -> bool {
        !self.running && text::trimmed(self.input).len() == 0
    }

    /// What Enter starts, in the login shell `shell`.
    pub open spec fn launch(self, shell: Option<Seq<char>>) -> LaunchView {
        LaunchView {
            program: login_program(shell),
            args: command_args(style_of(shell_name(login_program(shell))), self.typed_command()),
            cwd: self.cwd,
        }
    }

    /// The panel once the typed command was started.
    pub open spec fn started(self, shell: Option<Seq<char>>) -> ShellPanelView {
        ShellPanelView {
            input: Seq::empty(),
            command: Some(self.typed_command()),
            shell_label: shell_name(login_program(shell)),
            lines: Seq::empty(),
            listening: true,
            running: true,
            cwd: self.cwd,
        }
    }

    /// The panel after a report.
    pub open spec fn reported(self, event: ShellEventView) -> ShellPanelView {
        match event {
            ShellEventView::Line(line) => ShellPanelView { lines: self.lines.push(line), ..self },
            ShellEventView::Exit(code) => ShellPanelView {
                lines: self.lines.push(status_line("exit "@ + text::decimal(code as int))),
                listening: false,
                running: false,
                ..self
            },
            ShellEventView::SpawnError(message) => ShellPanelView {
                lines: self.lines.push(status_line("spawn failed: "@ + message)),
                listening: false,
                running: false,
                ..self
            },
        }
    }

    /// The panel after all of the reports that came in together.
    pub open spec fn after_reports(self, events: Seq<ShellEventView>) -> ShellPanelView
        decreases events.len(),
    {
        if events.len() == 0 {
            self
        } else {
            self.after_reports(events.drop_last()).reported(events.last())
        }
    }

    /// The panel after the reports that came in together, which count only
    /// where some are awaited.
    pub open spec fn drained(self, events: Seq<ShellEventView>) -> ShellPanelView {
        if self.listening {
            self.after_reports(events)
        } else {
            self
        }
    }
}

impl ShellPanel {
    /// The panel of the directory `cwd`, before anything was typed. `shell` is
    /// what the environment names as the login shell.
    pub fn new(cwd: String, shell: Option<&str>) -> (r: ShellPanel)
        ensures
            r@ == ShellPanelView::fresh(cwd@, text::opt_str(shell)),
    {
        let spec = login_shell_command_spec(shell);
        let panel = ShellPanel {
            input: String::new(),
            command: None,
            shell_label: spec.label,
            lines: Vec::new(),
            listening: false,
            running: false,
            cwd,
        };
        assert(panel@.lines =~= Seq::empty());
        panel
    }

    /// The panel is opened: what was typed before is gone.
    pub fn enter(&mut self)
        ensures
            final(self)@ == old(self)@.entered(),
    {
        self.input = String::new();
    }

    /// Forgets input, command and output.
    pub fn clear(&mut self)
        ensures
            final(self)@ == old(self)@.cleared(),
    {
        self.input = String::new();
        self.command = None;
        self.lines = Vec::new();
        self.listening = false;
        self.running = false;
        assert(self@.lines =~= Seq::empty());
    }

    /// Starts the typed command, unless there is none or one is running, and
    /// says what to launch.
    pub fn start(&mut self, shell: Option<&str>) -> (r: Option<Launch>)
        ensures
            r is Some <==> old(self)@.can_start(),
            r is Some ==> r->0@ == old(self)@.launch(text::opt_str(shell)) && final(self)@ == old(
                self,
            )@.started(text::opt_str(shell)),
            r is None ==> final(self)@ == old(self)@,
    {
        let typed = text::trim(self.input.as_str());
        let command = inject_focus_for_herdr_create(typed.as_str());
        if command.as_str().is_empty() || self.running {
            return None;
        }
        let spec = login_shell_command_spec(shell);
        let args = spec.args_for(command.as_str());
        self.command = Some(command);
        self.shell_label = spec.label;
        self.lines = Vec::new();
        self.listening = true;
        self.running = true;
        self.input = String::new();
        assert(self@.lines =~= Seq::empty());
        Some(Launch { program: spec.program, args, cwd: self.cwd.clone() })
    }

    /// Whether Enter closes the panel: nothing is typed and nothing is
    /// running.
    pub fn closes_on_empty_enter(&self) -> (r: bool)
        ensures
            r == (!self@.running && text::trimmed(self@.input).len() == 0),
            r == self@.closes_on_enter(),
    {
        let typed = text::trim(self.input.as_str());
        !self.running && typed.as_str().is_empty()
    }

    /// Takes in the reports that came in together.
    pub fn drain_events(&mut self, events: Vec<ShellEvent>)
        ensures
            final(self)@ == old(self)@.drained(event_views(events@)),
    {
        if !self.listening {
            return;
        }
        let ghost given = events@;
        let ghost all = event_views(events@);
        let ghost start = self@;
        assert(all.take(0) =~= Seq::empty());
        for event in it: events
            invariant
                it.seq() == given,
                all == event_views(given),
                self@ == start.after_reports(all.take(it.index() as int)),
        {
            let ghost before = self@;
            assert(all.take(it.index() + 1).drop_last() =~= all.take(it.index() as int));
            assert(all.take(it.index() + 1).last() == event@);
            let ghost seen = event@;
            match event {
                ShellEvent::Line(line) => {
                    let ghost added = line@;
                    self.lines.push(line);
                    assert(self@.lines =~= before.lines.push(added));
                },
                ShellEvent::Exit(code) => {
                    let mut text = "exit ".to_owned();
                    let number = text::decimal_of(code as i64);
                    text.append(number.as_str());
                    let line = ShellLine { stream: ShellStream::Status, text };
                    let ghost added = line@;
                    self.lines.push(line);
                    self.running = false;
                    self.listening = false;
                    assert(self@.lines =~= before.lines.push(added));
                },
                ShellEvent::SpawnError(message) => {
                    let mut text = "spawn failed: ".to_owned();
                    text.append(message.as_str());
                    let line = ShellLine { stream: ShellStream::Status, text };
                    let ghost added = line@;
                    self.lines.push(line);
                    self.running = false;
                    self.listening = false;
                    assert(self@.lines =~= before.lines.push(added));
                },
            }
            assert(self@ =~= before.reported(seen));
        }
        assert(all.take(all.len() as int) =~= all);
    }
}

/// Adding the focus flag twice is adding it once.
pub proof fn law_focus_is_added_once(command: Seq<char>)
    ensures
        with_focus(with_focus(command)) == with_focus(command),
{
    let t = text::trimmed(command);
    text::lemma_trimmed(command);
    text::lemma_trim_of_trimmed(t);
    if lacks_focus(t) {
        reveal_strlit(" --focus");
        reveal_strlit("--focus");
        let flag = " --focus"@;
        let u = t + flag;
        assert(t.len() > 0) by {
            if t.len() == 0 {
                assert(text::words(t).len() == 0);
            }
        }
        assert(u[0] == t[0]);
        assert(u.last() == 's');
        text::lemma_trim_of_trimmed(u);
        text::lemma_runs_add(t, flag, text::Separator::White);
        assert(flag.drop_first() =~= "--focus"@);
        text::lemma_single_run("--focus"@, text::Separator::White);
        assert(text::words(flag) =~= seq!["--focus"@]);
        let words = text::words(u);
        assert(words[words.len() - 1] == "--focus"@);
        assert(words.contains("--focus"@));
    }
}

/// A command gains at most the focus flag, and only behind it.
pub proof fn law_focus_keeps_the_command(command: Seq<char>)
    ensures
        with_focus(command) == text::trimmed(command) || with_focus(command) == text::trimmed(
            command,
        ) + " --focus"@,
        text::trimmed(command).len() == 0 ==> with_focus(command).len() == 0,
{
    if text::trimmed(command).len() == 0 {
        assert(text::words(text::trimmed(command)).len() == 0);
    }
}

/// What a panel keeps: reports are awaited while a command is running.
pub open spec fn panel_inv(p: ShellPanelView) -> bool {
    p.running ==> p.listening
}

/// Every operation keeps what a panel keeps.
pub proof fn law_running_is_listened_to(
    p: ShellPanelView,
    cwd: Seq<char>,
    shell: Option<Seq<char>>,
    events: Seq<ShellEventView>,
)
    requires
        panel_inv(p),
    ensures
        panel_inv(ShellPanelView::fresh(cwd, shell)),
        panel_inv(p.entered()),
        panel_inv(p.cleared()),
        panel_inv(p.started(shell)),
        panel_inv(p.drained(events)),
    decreases events.len(),
{
    if events.len() > 0 {
        law_running_is_listened_to(p, cwd, shell, events.drop_last());
    }
}

/// Whether a report says that the command is over.
pub open spec fn is_final(event: ShellEventView) -> bool {
    event is Exit || event is SpawnError
}

/// Once a command is reported to be over, it no longer runs and no further
/// report counts.
pub proof fn law_final_report_ends_the_command(p: ShellPanelView, events: Seq<ShellEventView>, i: int)
    requires
        p.listening,
        0 <= i < events.len(),
        is_final(events[i]),
    ensures
        !p.drained(events).running,
        !p.drained(events).listening,
        forall|later: Seq<ShellEventView>| #[trigger]
            p.drained(events).drained(later) == p.drained(events),
    decreases events.len(),
{
    if i < events.len() - 1 {
        law_final_report_ends_the_command(p, events.drop_last(), i);
    }
}

/// Each report adds one line, behind those that are there.
pub proof fn law_reports_add_lines(p: ShellPanelView, events: Seq<ShellEventView>)
    requires
        p.listening,
    ensures
        p.drained(events).lines.len() == p.lines.len() + events.len(),
        p.drained(events).lines.take(p.lines.len() as int) == p.lines,
        p.drained(events).input == p.input,
        p.drained(events).command == p.command,
    decreases events.len(),
{
    if events.len() > 0 {
        law_reports_add_lines(p, events.drop_last());
        let before = p.after_reports(events.drop_last());
        assert(p.after_reports(events).lines.take(p.lines.len() as int) =~= before.lines.take(
            p.lines.len() as int,
        ));
    } else {
        assert(p.lines.take(p.lines.len() as int) =~= p.lines);
    }
}

/// A panel that was cleared ignores what its former command still reports.
pub proof fn law_cleared_panel_ignores_reports(p: ShellPanelView, events: Seq<ShellEventView>)
    ensures
        p.cleared().drained(events) == p.cleared(),
{
}

/// A command that holds any of the characters that make it more than one simple
/// invocation is run as it was typed, but for the whitespace around it.
pub proof fn law_compound_commands_are_left_alone(command: Seq<char>, i: int)
    requires
        0 <= i < text::trimmed(command).len(),
        seq![';', '&', '|', '>', '<', '$', '\\', '\n', '\r'].contains(text::trimmed(command)[i]),
    ensures
        with_focus(command) == text::trimmed(command),
{
    let all = seq![';', '&', '|', '>', '<', '$', '\\', '\n', '\r'];
    let c = text::trimmed(command)[i];
    let k = choose|k: int| 0 <= k < all.len() && all[k] == c;
    assert(compound(c));
}

/// A simple command of `herdr`, by whatever path, that creates a workspace, a
/// tab or a pane and does not ask for the focus, is made to.
pub proof fn law_creations_are_focused(command: Seq<char>, path: Seq<char>)
    requires
        forall|i: int|
            0 <= i < text::trimmed(command).len() ==> !seq![
                ';',
                '&',
                '|',
                '>',
                '<',
                '$',
                '\\',
                '\n',
                '\r',
            ].contains(#[trigger] text::trimmed(command)[i]),
        text::words(text::trimmed(command)).len() >= 3,
        text::words(text::trimmed(command))[0] == path + "herdr"@,
        ({
            let kind = text::words(text::trimmed(command))[1];
            let sub = text::words(text::trimmed(command))[2];
            ||| (kind == "workspace"@ || kind == "tab"@ || kind == "pane"@) && sub == "create"@
            ||| kind == "pane"@ && sub == "split"@
        }),
        !text::words(text::trimmed(command)).contains("--focus"@),
    ensures
        with_focus(command) == text::trimmed(command) + " --focus"@,
{
    let t = text::trimmed(command);
    let all = seq![';', '&', '|', '>', '<', '$', '\\', '\n', '\r'];
    assert(all[0] == ';' && all[1] == '&' && all[2] == '|' && all[3] == '>' && all[4] == '<'
        && all[5] == '$' && all[6] == '\\' && all[7] == '\n' && all[8] == '\r');
    assert forall|i: int| 0 <= i < t.len() implies !compound(#[trigger] t[i]) by {
        assert(!all.contains(t[i]));
    }
    text::law_ending(text::words(t)[0], "herdr"@);
}

/// A command that asks for the focus itself, is not one of `herdr`, or creates
/// nothing, is run as it was typed, but for the whitespace around it.
pub proof fn law_other_commands_are_left_alone(command: Seq<char>)
    requires
        ({
            let words = text::words(text::trimmed(command));
            ||| words.len() < 3
            ||| words.contains("--focus"@)
            ||| forall|path: Seq<char>| words[0] != #[trigger] (path + "herdr"@)
            ||| words[1] != "workspace"@ && words[1] != "tab"@ && words[1] != "pane"@
            ||| words[2] != "create"@ && words[2] != "split"@
            ||| words[1] != "pane"@ && words[2] != "create"@
        }),
    ensures
        with_focus(command) == text::trimmed(command),
{
    let words = text::words(text::trimmed(command));
    if words.len() >= 3 {
        text::law_ending(words[0], "herdr"@);
    }
}

/// Whatever the shell, the last argument is the command, behind what makes it a
/// login shell that runs one.
pub proof fn law_shells_are_told_to_run_the_command(style: ShellCommandStyle, command: Seq<char>)
    ensures
        command_args(style, command).last() == command,
        command_args(ShellCommandStyle::DashLoginCommand, command).drop_last() == seq!["-lc"@],
        command_args(ShellCommandStyle::LongLoginCommand, command).drop_last() == seq![
            "--login"@,
            "-c"@,
        ],
        command_args(ShellCommandStyle::PowerShellLoginCommand, command).drop_last() == seq![
            "-Login"@,
            "-Command"@,
        ],
{
    assert(command_args(ShellCommandStyle::DashLoginCommand, command).drop_last() =~= seq!["-lc"@]);
    assert(command_args(ShellCommandStyle::LongLoginCommand, command).drop_last() =~= seq![
        "--login"@,
        "-c"@,
    ]);
    assert(command_args(ShellCommandStyle::PowerShellLoginCommand, command).drop_last() =~= seq![
        "-Login"@,
        "-Command"@,
    ]);
}

/// Nushell and fish take long options, PowerShell its own, and every other shell
/// the short ones.
pub proof fn law_shells_take_their_own_options(name: Seq<char>)
    ensures
        style_of(name) == ShellCommandStyle::LongLoginCommand <==> seq![
            "nu"@,
            "nushell"@,
            "fish"@,
        ].contains(name),
        style_of(name) == ShellCommandStyle::PowerShellLoginCommand <==> seq![
            "pwsh"@,
            "powershell"@,
        ].contains(name),
{
    let long = seq!["nu"@, "nushell"@, "fish"@];
    let power = seq!["pwsh"@, "powershell"@];
    assert(long[0] == "nu"@ && long[1] == "nushell"@ && long[2] == "fish"@);
    assert(power[0] == "pwsh"@ && power[1] == "powershell"@);
    reveal_strlit("nu");
    reveal_strlit("nushell");
    reveal_strlit("fish");
    reveal_strlit("pwsh");
    reveal_strlit("powershell");
    assert("nu"@[0] == 'n' && "nushell"@[0] == 'n' && "fish"@[0] == 'f' && "pwsh"@[0] == 'p'
        && "powershell"@[0] == 'p');
}

/// A shell is known by the last name of its path, without the dash of a login
/// shell; without a shell in the environment it is bash.
pub proof fn law_shell_is_known_by_its_name(dir: Seq<char>, name: Seq<char>)
    requires
        paths::is_name(name),
        name != ".."@,
        name[0] != '-',
    ensures
        shell_name(dir + "/"@ + name) == name,
        shell_name(name) == name,
        shell_name("-"@ + name) == name,
        login_program(Some(name)) == name,
        login_program(None) == "bash"@,
{
    reveal_strlit("-");
    let none = Seq::<char>::empty();
    let dashed = "-"@ + name;
    assert(text::is_all(none, '/'));
    paths::law_base_name_is_the_last_name(dir, name, none);
    assert(dir + "/"@ + name + none =~= dir + "/"@ + name);
    assert(name + none =~= name);
    assert(!dashed.contains('/')) by {
        if dashed.contains('/') {
            let i = choose|i: int| 0 <= i < dashed.len() && dashed[i] == '/';
            assert(name[i - 1] == '/');
        }
    }
    reveal_strlit(".");
    reveal_strlit("..");
    assert(dashed[0] == '-');
    assert("."@[0] == '.' && ".."@[0] == '.');
    paths::law_base_name_is_the_last_name(dir, dashed, none);
    assert(dashed + none =~= dashed);
    assert(dashed.drop_first() =~= name);
    reveal_with_fuel(text::strip_leading, 2);
}

/// Enter starts the typed command, unless nothing is typed or a command is
/// running: in the login shell, in the panel's directory, focused where it
/// creates something. The panel then shows the command and awaits its output.
pub proof fn law_enter_starts_the_typed_command(p: ShellPanelView, shell: Option<Seq<char>>)
    ensures
        p.can_start() <==> !p.running && text::trimmed(p.input).len() > 0,
        p.launch(shell).cwd == p.cwd,
        p.launch(shell).program == match shell {
            Some(program) => program,
            None => "bash"@,
        },
        p.launch(shell).args.last() == with_focus(p.input),
        p.launch(shell).args == command_args(
            style_of(shell_name(p.launch(shell).program)),
            with_focus(p.input),
        ),
        p.started(shell).command == Some(with_focus(p.input)),
        p.started(shell).input.len() == 0,
        p.started(shell).lines.len() == 0,
        p.started(shell).running,
        p.started(shell).listening,
        p.started(shell).cwd == p.cwd,
        p.started(shell).shell_label == shell_name(p.launch(shell).program),
{
    text::lemma_trimmed(p.input);
    text::lemma_trim_of_trimmed(text::trimmed(p.input));
    law_focus_keeps_the_command(text::trimmed(p.input));
    reveal_strlit(" --focus");
}

/// A panel opens empty, in its directory and for its shell. Entering it drops
/// what was typed and nothing else; clearing it drops the command and its output
/// too.
pub proof fn law_panels_open_and_clear_empty(
    p: ShellPanelView,
    cwd: Seq<char>,
    shell: Option<Seq<char>>,
)
    ensures
        ({
            let new = ShellPanelView::fresh(cwd, shell);
            &&& new.input.len() == 0 && new.command is None && new.lines.len() == 0
            &&& !new.listening && !new.running && new.cwd == cwd
            &&& new.shell_label == shell_name(login_program(shell))
        }),
        ({
            let now = p.entered();
            &&& now.input.len() == 0 && now.command == p.command && now.lines == p.lines
            &&& now.listening == p.listening && now.running == p.running && now.cwd == p.cwd
            &&& now.shell_label == p.shell_label
        }),
        ({
            let now = p.cleared();
            &&& now.input.len() == 0 && now.command is None && now.lines.len() == 0
            &&& !now.listening && !now.running && now.cwd == p.cwd
            &&& now.shell_label == p.shell_label
        }),
{
}

/// A line of output is shown as it came, an exit by its code, and a command that
/// could not be started by why. The last two end the command.
pub proof fn law_reports_are_shown(
    p: ShellPanelView,
    line: ShellLineView,
    code: i32,
    why: Seq<char>,
)
    requires
        p.listening,
    ensures
        p.drained(seq![ShellEventView::Line(line)]).lines == p.lines.push(line),
        p.drained(seq![ShellEventView::Line(line)]).running == p.running,
        p.drained(seq![ShellEventView::Line(line)]).listening,
        p.drained(seq![ShellEventView::Exit(code)]).lines.drop_last() == p.lines,
        p.drained(seq![ShellEventView::Exit(code)]).lines.last().stream == ShellStream::Status,
        p.drained(seq![ShellEventView::Exit(code)]).lines.last().text == "exit "@ + text::decimal(
            code as int,
        ),
        !p.drained(seq![ShellEventView::Exit(code)]).running,
        p.drained(seq![ShellEventView::SpawnError(why)]).lines.drop_last() == p.lines,
        p.drained(seq![ShellEventView::SpawnError(why)]).lines.last().stream
            == ShellStream::Status,
        p.drained(seq![ShellEventView::SpawnError(why)]).lines.last().text == "spawn failed: "@
            + why,
        !p.drained(seq![ShellEventView::SpawnError(why)]).running,
{
    let a = seq![ShellEventView::Line(line)];
    let b = seq![ShellEventView::Exit(code)];
    let c = seq![ShellEventView::SpawnError(why)];
    assert(a.drop_last() =~= Seq::empty() && b.drop_last() =~= Seq::empty() && c.drop_last()
        =~= Seq::empty());
    reveal_with_fuel(ShellPanelView::after_reports, 2);
    assert(p.drained(b).lines.drop_last() =~= p.lines);
    assert(p.drained(c).lines.drop_last() =~= p.lines);
}

/// Reports that came in together are taken in one after the other.
pub proof fn law_reports_are_taken_in_order(
    p: ShellPanelView,
    events: Seq<ShellEventView>,
    event: ShellEventView,
)
    requires
        p.listening,
        p.drained(events).listening,
    ensures
        p.drained(events.push(event)) == p.drained(events).drained(seq![event]),
        p.drained(Seq::<ShellEventView>::empty()) == p,
{
    assert(events.push(event).drop_last() =~= events);
    assert(seq![event].drop_last() =~= Seq::empty());
    reveal_with_fuel(ShellPanelView::after_reports, 2);
}

/// A failure to read is shown with the stream that it came from, and a command
/// that ended without a code counts as failed.
pub proof fn law_failures_are_named(why: Seq<char>, code: i32)
    ensures
        read_failure(ShellStream::Stdout, why) == "read stdout failed: "@ + why,
        read_failure(ShellStream::Stderr, why) == "read stderr failed: "@ + why,
        exit_code(Some(code)) == code,
        exit_code(None) != 0,
{
}

/// A line is reported as it was read, from the stream that it came from, and a
/// failure to read it by why.
pub proof fn law_lines_are_reported_as_read(stream: ShellStream, text: Seq<char>)
    ensures
        line_read(stream, Ok(text)) == ShellEventView::Line((ShellLineView { stream, text })),
        line_read(ShellStream::Stdout, Err(text)) == ShellEventView::Line(
            (ShellLineView { stream: ShellStream::Stdout, text: "read stdout failed: "@ + text }),
        ),
        line_read(ShellStream::Stderr, Err(text)) == ShellEventView::Line(
            (ShellLineView { stream: ShellStream::Stderr, text: "read stderr failed: "@ + text }),
        ),
{
}

/// While nothing is running, Enter either closes the panel or starts what is
/// typed; while a command is running it does neither.
pub proof fn law_enter_closes_or_starts(p: ShellPanelView)
    ensures
        !p.running ==> (p.closes_on_enter() <==> !p.can_start()),
        p.running ==> !p.closes_on_enter() && !p.can_start(),
        p.input.len() == 0 && !p.running ==> p.closes_on_enter(),
        text::trimmed(p.input).len() > 0 ==> !p.closes_on_enter(),
{
    law_enter_starts_the_typed_command(p, None);
}

} // verus!
