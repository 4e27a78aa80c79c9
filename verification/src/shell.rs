//! The shell engine: a registry of named commands, a dispatcher that routes
//! a statement to a builtin or to the caller's default handler, and the
//! session that ties registry, history and handler together.

use vstd::prelude::*;
use crate::history::{History, spec_push, spec_history_lines};
use crate::text::{seq_lt, str_eq, str_lt, lemma_seq_lt_connected, lemma_seq_lt_asymmetric,
    lemma_seq_lt_transitive, spec_parse_index, parse_index};
use crate::tokens::{ws_tokens, tokenize};
use crate::complete::{spec_strip_term, strip_terminator};

verus! {

/// What a registered command does when dispatched: one of the shell's own
/// builtins, or a caller command identified by a numeric tag that the
/// session handler interprets.
#[derive(Clone, Copy)]
pub enum CmdKind {
    Help,
    Quit,
    History,
    Custom(u64),
}

/// A named command: looked up by the first whitespace-delimited token of a
/// line, and rejected with `MissingArgs` when fewer than `min_args`
/// arguments follow that token.
pub struct Command {
    pub name: String,
    pub description: String,
    pub min_args: usize,
    pub kind: CmdKind,
}

/// The mathematical image of a `Command`.
pub ghost struct CmdView {
    pub name: Seq<char>,
    pub description: Seq<char>,
    pub min_args: int,
    pub kind: CmdKind,
}

impl View for Command {
    type V = CmdView;

    open spec fn view(&self) -> CmdView {
        CmdView {
            name: self.name@,
            description: self.description@,
            min_args: self.min_args as int,
            kind: self.kind,
        }
    }
}

impl DeepView for Command {
    type V = CmdView;

    open spec fn deep_view(&self) -> CmdView {
        self.view()
    }
}

/// The first command in `reg` whose name is `name`, if any.
pub open spec fn lookup(reg: Seq<CmdView>, name: Seq<char>) -> Option<CmdView>
    decreases reg.len(),
{
    if reg.len() == 0 {
        None
    } else if reg[0].name == name {
        Some(reg[0])
    } else {
        lookup(reg.drop_first(), name)
    }
}

proof fn lemma_lookup_skip(reg: Seq<CmdView>, name: Seq<char>, i: int)
    requires
        0 <= i <= reg.len(),
        forall|k: int| 0 <= k < i ==> reg[k].name != name,
    ensures
        lookup(reg, name) == lookup(reg.skip(i), name),
    decreases i,
{
    if i > 0 {
        assert(reg[0].name != name);
        lemma_lookup_skip(reg.drop_first(), name, i - 1);
        assert(reg.drop_first().skip(i - 1) =~= reg.skip(i));
    } else {
        assert(reg.skip(0) =~= reg);
    }
}

proof fn lemma_lookup_insert_other(reg: Seq<CmdView>, p: int, c: CmdView, name: Seq<char>)
    requires
        0 <= p <= reg.len(),
        c.name != name,
    ensures
        lookup(reg.insert(p, c), name) == lookup(reg, name),
    decreases p,
{
    let r2 = reg.insert(p, c);
    if p == 0 {
        assert(r2.drop_first() =~= reg);
    } else {
        assert(r2[0] == reg[0]);
        if reg[0].name != name {
            lemma_lookup_insert_other(reg.drop_first(), p - 1, c, name);
            assert(reg.drop_first().insert(p - 1, c) =~= r2.drop_first());
        }
    }
}

proof fn lemma_lookup_update_other(reg: Seq<CmdView>, p: int, c: CmdView, name: Seq<char>)
    requires
        0 <= p < reg.len(),
        c.name != name,
        reg[p].name != name,
    ensures
        lookup(reg.update(p, c), name) == lookup(reg, name),
    decreases p,
{
    let r2 = reg.update(p, c);
    if p == 0 {
        assert(r2.drop_first() =~= reg.drop_first());
    } else {
        assert(r2[0] == reg[0]);
        if reg[0].name != name {
            lemma_lookup_update_other(reg.drop_first(), p - 1, c, name);
            assert(reg.drop_first().update(p - 1, c) =~= r2.drop_first());
        }
    }
}

/// The command registry: the named commands of a session, held in strictly
/// ascending name order so that `help` lists them sorted by name.
pub struct CommandRegistry {
    cmds: Vec<Command>,
}

impl View for CommandRegistry {
    type V = Seq<CmdView>;

    closed spec fn view(&self) -> Seq<CmdView> {
        self.cmds.deep_view()
    }
}

/// The lines `help` prints: `name - description` for every registered
/// command, in registry (that is, name) order.
pub open spec fn spec_help_lines(reg: Seq<CmdView>) -> Seq<Seq<char>> {
    Seq::new(reg.len(), |i: int| reg[i].name + seq![' ', '-', ' '] + reg[i].description)
}

impl CommandRegistry {
    /// Names strictly ascend, so each name occurs at most once.
    pub open spec fn inv(&self) -> bool {
        forall|i: int, j: int|
            0 <= i < j < self@.len() ==> seq_lt(#[trigger] self@[i].name, #[trigger] self@[j].name)
    }

    /// A registry with no commands.
    pub fn new() -> (r: CommandRegistry)
        ensures
            r.inv(),
            r@ == Seq::<CmdView>::empty(),
    {
        let r = CommandRegistry { cmds: Vec::new() };
        proof {
            assert(r@ =~= Seq::<CmdView>::empty());
        }
        r
    }

    pub fn len(&self) -> (r: usize)
        ensures
            r == self@.len(),
    {
        self.cmds.len()
    }

    /// The registered command named by the first token of a line, if any.
    pub fn find(&self, name: &str) -> (r: Option<&Command>)
        ensures
            match r {
                Some(c) => lookup(self@, name@) == Some(c@),
                None => lookup(self@, name@) is None,
            },
    {
        let n = self.cmds.len();
        let mut i: usize = 0;
        while i < n
            invariant
                i <= n,
                n == self@.len(),
                self@ == self.cmds.deep_view(),
                forall|k: int| 0 <= k < i ==> self@[k].name != name@,
            decreases n - i,
        {
            if str_eq(self.cmds[i].name.as_str(), name) {
                proof {
                    lemma_lookup_skip(self@, name@, i as int);
                    assert(self@.skip(i as int)[0] == self@[i as int]);
                }
                return Some(&self.cmds[i]);
            }
            i = i + 1;
        }
        proof {
            lemma_lookup_skip(self@, name@, n as int);
            assert(self@.skip(n as int) =~= Seq::<CmdView>::empty());
        }
        None
    }

    /// Adds `cmd` under its name, replacing any command already registered
    /// under that name: last write wins, every other entry is untouched.
    pub fn register(&mut self, cmd: Command)
        requires
            old(self).inv(),
        ensures
            final(self).inv(),
            lookup(final(self)@, cmd@.name) == Some(cmd@),
            forall|n: Seq<char>|
                n != cmd@.name ==> #[trigger] lookup(final(self)@, n) == lookup(old(self)@, n),
            final(self)@.len() <= old(self)@.len() + 1,
    {
        let n = self.cmds.len();
        let mut p: usize = 0;
        while p < n && str_lt(self.cmds[p].name.as_str(), cmd.name.as_str())
            invariant
                p <= n,
                n == self@.len(),
                self@ == self.cmds.deep_view(),
                forall|k: int| 0 <= k < p ==> seq_lt(#[trigger] self@[k].name, cmd@.name),
            decreases n - p,
        {
            p = p + 1;
        }
        let ghost prev = self@;
        if p < n && str_eq(self.cmds[p].name.as_str(), cmd.name.as_str()) {
            let ghost replaced = self@[p as int];
            self.cmds.remove(p);
            self.cmds.insert(p, cmd);
            proof {
                assert(self.cmds.deep_view() =~= prev.update(p as int, cmd@));
                let now = self@;
                assert forall|i: int, j: int| 0 <= i < j < now.len() implies seq_lt(
                    #[trigger] now[i].name,
                    #[trigger] now[j].name,
                ) by {
                    assert(seq_lt(prev[i].name, prev[j].name));
                    if i == p {
                        assert(now[i].name == replaced.name);
                    }
                    if j == p {
                        assert(now[j].name == replaced.name);
                    }
                }
                assert forall|k: int| 0 <= k < p implies now[k].name != cmd@.name by {
                    lemma_seq_lt_asymmetric(now[k].name, cmd@.name);
                }
                lemma_lookup_skip(now, cmd@.name, p as int);
                assert(now.skip(p as int)[0] == now[p as int]);
                assert(lookup(now, cmd@.name) == Some(cmd@));
                assert forall|nm: Seq<char>| nm != cmd@.name implies #[trigger] lookup(now, nm)
                    == lookup(prev, nm) by {
                    lemma_lookup_update_other(prev, p as int, cmd@, nm);
                }
            }
        } else {
            self.cmds.insert(p, cmd);
            proof {
                assert(self.cmds.deep_view() =~= prev.insert(p as int, cmd@));
                let now = self@;
                if p < n {
                    lemma_seq_lt_connected(prev[p as int].name, cmd@.name);
                    assert(seq_lt(cmd@.name, prev[p as int].name));
                }
                assert forall|i: int, j: int| 0 <= i < j < now.len() implies seq_lt(
                    #[trigger] now[i].name,
                    #[trigger] now[j].name,
                ) by {
                    if i < p && j == p {
                    } else if i == p && j > p {
                        if p < n {
                            lemma_seq_lt_transitive(cmd@.name, prev[p as int].name, prev[j - 1].name);
                            if j - 1 > p {
                                assert(seq_lt(prev[p as int].name, prev[j - 1].name));
                            }
                        }
                    } else if i < p && j > p {
                        assert(seq_lt(prev[i].name, prev[j - 1].name));
                    } else if i > p && j > p {
                        assert(seq_lt(prev[i - 1].name, prev[j - 1].name));
                    }
                }
                assert forall|k: int| 0 <= k < p implies now[k].name != cmd@.name by {
                    lemma_seq_lt_asymmetric(now[k].name, cmd@.name);
                }
                lemma_lookup_skip(now, cmd@.name, p as int);
                assert(now.skip(p as int)[0] == now[p as int]);
                assert(lookup(now, cmd@.name) == Some(cmd@));
                assert forall|nm: Seq<char>| nm != cmd@.name implies #[trigger] lookup(now, nm)
                    == lookup(prev, nm) by {
                    lemma_lookup_insert_other(prev, p as int, cmd@, nm);
                }
            }
        }
    }

    /// The `help` listing: one `name - description` line per command, in
    /// name order.
    pub fn render_help(&self) -> (r: Vec<String>)
        ensures
            r.deep_view() == spec_help_lines(self@),
    {
        let mut out: Vec<String> = Vec::new();
        let n = self.cmds.len();
        let mut i: usize = 0;
        while i < n
            invariant
                i <= n,
                n == self@.len(),
                self@ == self.cmds.deep_view(),
                out.deep_view() =~= spec_help_lines(self@).take(i as int),
            decreases n - i,
        {
            let line = self.cmds[i].name.clone().concat(" - ").concat(
                self.cmds[i].description.as_str(),
            );
            proof {
                reveal_strlit(" - ");
                assert(" - "@ =~= seq![' ', '-', ' ']);
                assert(line@ == self@[i as int].name + seq![' ', '-', ' ']
                    + self@[i as int].description);
            }
            let ghost prevdv = out.deep_view();
            out.push(line);
            proof {
                assert(out.deep_view() =~= prevdv.push(line@));
                assert(out.deep_view() =~= spec_help_lines(self@).take(i + 1));
            }
            i = i + 1;
        }
        proof {
            assert(spec_help_lines(self@).take(n as int) =~= spec_help_lines(self@));
        }
        out
    }
}

/// The error-shaped outcomes of dispatch. All of them leave registry and
/// history untouched; `Quit` is the sentinel that ends the read loop and
/// the only one that is not reported as an error to the user.
pub enum ShellError {
    /// The line held no tokens; silently ignored by the loop.
    Empty,
    /// The sentinel returned by the `quit` builtin.
    Quit,
    /// A registered command received fewer arguments than its minimum.
    MissingArgs,
    /// Raised by a caller's handler that chooses to signal an unknown
    /// command; the dispatcher itself never raises it.
    UnknownCommand(String),
    /// `history` replay was asked for an index that does not exist; holds
    /// the index token as typed.
    InvalidHistory(String),
    /// An opaque failure propagated from a command or default handler.
    Other(String),
}

/// The mathematical image of a `ShellError`.
pub ghost enum ShellErrorView {
    Empty,
    Quit,
    MissingArgs,
    UnknownCommand(Seq<char>),
    InvalidHistory(Seq<char>),
    Other(Seq<char>),
}

impl View for ShellError {
    type V = ShellErrorView;

    open spec fn view(&self) -> ShellErrorView {
        match self {
            ShellError::Empty => ShellErrorView::Empty,
            ShellError::Quit => ShellErrorView::Quit,
            ShellError::MissingArgs => ShellErrorView::MissingArgs,
            ShellError::UnknownCommand(s) => ShellErrorView::UnknownCommand(s@),
            ShellError::InvalidHistory(s) => ShellErrorView::InvalidHistory(s@),
            ShellError::Other(s) => ShellErrorView::Other(s@),
        }
    }
}

/// What a successfully routed line asks the session to do.
pub enum ShellAction {
    /// Print the registered commands, name-sorted.
    ShowHelp,
    /// Print the whole history, oldest first.
    ShowHistory,
    /// Run the caller command registered under `tag` with these arguments.
    RunCommand { tag: u64, args: Vec<String> },
    /// Hand the whole line, verbatim, to the caller's default handler.
    Forward { statement: String },
}

/// The mathematical image of a `ShellAction`.
pub ghost enum ActionView {
    ShowHelp,
    ShowHistory,
    RunCommand { tag: u64, args: Seq<Seq<char>> },
    Forward { statement: Seq<char> },
}

impl View for ShellAction {
    type V = ActionView;

    open spec fn view(&self) -> ActionView {
        match self {
            ShellAction::ShowHelp => ActionView::ShowHelp,
            ShellAction::ShowHistory => ActionView::ShowHistory,
            ShellAction::RunCommand { tag, args } => ActionView::RunCommand {
                tag: *tag,
                args: args.deep_view(),
            },
            ShellAction::Forward { statement } => ActionView::Forward { statement: statement@ },
        }
    }
}

/// The note carried by the error that stops a replay chain longer than the
/// history itself, which with an unchanging history can only be a cycle.
pub open spec fn replay_depth_note() -> Seq<char> {
    "history replay cannot terminate"@
}

/// How a line is routed, given a registry and a history: the heart of
/// dispatch. `history <i>` re-enters the routing on the stored line; `fuel`
/// bounds that re-entry, and a session always supplies more fuel than the
/// history has entries, so only a replay cycle can exhaust it.
pub open spec fn spec_resolve(
    reg: Seq<CmdView>,
    hist: Seq<Seq<char>>,
    line: Seq<char>,
    fuel: nat,
) -> Result<ActionView, ShellErrorView>
    decreases fuel,
{
    let toks = ws_tokens(spec_strip_term(line));
    if toks.len() == 0 {
        Err(ShellErrorView::Empty)
    } else {
        match lookup(reg, toks[0]) {
            None => Ok(ActionView::Forward { statement: line }),
            Some(c) => {
                if toks.len() - 1 < c.min_args {
                    Err(ShellErrorView::MissingArgs)
                } else {
                    match c.kind {
                        CmdKind::Help => Ok(ActionView::ShowHelp),
                        CmdKind::Quit => Err(ShellErrorView::Quit),
                        CmdKind::History => {
                            if toks.len() == 1 {
                                Ok(ActionView::ShowHistory)
                            } else {
                                match spec_parse_index(toks[1]) {
                                    None => Err(ShellErrorView::InvalidHistory(toks[1])),
                                    Some(i) => {
                                        if i >= hist.len() {
                                            Err(ShellErrorView::InvalidHistory(toks[1]))
                                        } else if fuel == 0 {
                                            Err(ShellErrorView::Other(replay_depth_note()))
                                        } else {
                                            spec_resolve(
                                                reg,
                                                hist,
                                                hist[i as int],
                                                (fuel - 1) as nat,
                                            )
                                        }
                                    },
                                }
                            }
                        },
                        CmdKind::Custom(tag) => Ok(ActionView::RunCommand {
                            tag,
                            args: toks.drop_first(),
                        }),
                    }
                }
            },
        }
    }
}

/// The image of an exec routing result.
pub open spec fn resolve_view(r: Result<ShellAction, ShellError>) -> Result<
    ActionView,
    ShellErrorView,
> {
    match r {
        Ok(a) => Ok(a@),
        Err(e) => Err(e@),
    }
}

/// Routes one line: tokenizes it, looks the first token up, checks the
/// argument minimum, resolves `history <i>` replay down to the stored line.
fn resolve(reg: &CommandRegistry, hist: &History, line: &str, fuel: usize) -> (r: Result<
    ShellAction,
    ShellError,
>)
    ensures
        resolve_view(r) == spec_resolve(reg@, hist@, line@, fuel as nat),
    decreases fuel,
{
    let body = strip_terminator(line);
    let toks = tokenize(body);
    let ghost stoks = ws_tokens(spec_strip_term(line@));
    if toks.len() == 0 {
        return Err(ShellError::Empty);
    }
    proof {
        assert(stoks[0] == toks.deep_view()[0]);
    }
    let found = reg.find(toks[0].as_str());
    match found {
        None => Ok(ShellAction::Forward { statement: String::from_str(line) }),
        Some(c) => {
            let min_args = c.min_args;
            let kind = c.kind;
            if toks.len() - 1 < min_args {
                return Err(ShellError::MissingArgs);
            }
            match kind {
                CmdKind::Help => Ok(ShellAction::ShowHelp),
                CmdKind::Quit => Err(ShellError::Quit),
                CmdKind::History => {
                    if toks.len() == 1 {
                        Ok(ShellAction::ShowHistory)
                    } else {
                        proof {
                            assert(stoks[1] == toks.deep_view()[1]);
                        }
                        match parse_index(toks[1].as_str()) {
                            None => Err(ShellError::InvalidHistory(toks[1].clone())),
                            Some(i) => {
                                match hist.get(i) {
                                    None => Err(ShellError::InvalidHistory(toks[1].clone())),
                                    Some(entry) => {
                                        if fuel == 0 {
                                            Err(ShellError::Other(String::from_str(
                                                "history replay cannot terminate",
                                            )))
                                        } else {
                                            resolve(reg, hist, entry.as_str(), fuel - 1)
                                        }
                                    },
                                }
                            },
                        }
                    }
                },
                CmdKind::Custom(tag) => {
                    let mut args: Vec<String> = Vec::new();
                    let nt = toks.len();
                    let mut k: usize = 1;
                    while k < nt
                        invariant
                            1 <= k <= nt,
                            nt == toks@.len(),
                            args.deep_view() =~= toks.deep_view().subrange(1, k as int),
                        decreases nt - k,
                    {
                        let ghost prevdv = args.deep_view();
                        args.push(toks[k].clone());
                        proof {
                            assert(args.deep_view() =~= prevdv.push(toks.deep_view()[k as int]));
                        }
                        k = k + 1;
                    }
                    proof {
                        assert(args.deep_view() =~= stoks.drop_first());
                    }
                    Ok(ShellAction::RunCommand { tag, args })
                },
            }
        },
    }
}

/// A whitespace-only (in particular, an empty) line resolves to `Empty`,
/// whatever the registry, the history and the fuel.
pub proof fn lemma_whitespace_line_is_empty(
    reg: Seq<CmdView>,
    hist: Seq<Seq<char>>,
    line: Seq<char>,
    fuel: nat,
)
    requires
        forall|k: int| 0 <= k < line.len() ==> crate::tokens::is_ascii_ws(line[k]),
    ensures
        spec_resolve(reg, hist, line, fuel) == Err::<ActionView, ShellErrorView>(
            ShellErrorView::Empty,
        ),
{
    crate::text::lemma_trimmed_end_prefix(line);
    let t = crate::text::trimmed_end(line);
    if t.len() > 0 {
        assert(t.last() == line[t.len() - 1]);
        assert(crate::tokens::is_ascii_ws(t.last()));
    }
    assert(spec_strip_term(line) == line);
    crate::tokens::lemma_ws_tokens_empty(line);
}

/// A line whose first token names no registered command is forwarded to the
/// default handler whole: the statement handed over is the original line,
/// verbatim, not its remaining tokens.
pub proof fn lemma_unregistered_line_forwarded(
    reg: Seq<CmdView>,
    hist: Seq<Seq<char>>,
    line: Seq<char>,
    fuel: nat,
)
    requires
        ws_tokens(spec_strip_term(line)).len() > 0,
        lookup(reg, ws_tokens(spec_strip_term(line))[0]) is None,
    ensures
        spec_resolve(reg, hist, line, fuel) == Ok::<ActionView, ShellErrorView>(
            ActionView::Forward { statement: line },
        ),
{
}

/// The replay law: when a line's two tokens are a command registered with
/// the history builtin's kind and an index token that parses to `i`, then
/// for `i` within range the line resolves exactly as the stored line at `i`
/// resolves (with one unit of fuel spent), and for `i` out of range it
/// fails with `InvalidHistory` carrying the index token as typed.
pub proof fn lemma_replay_resolves_stored(
    reg: Seq<CmdView>,
    hist: Seq<Seq<char>>,
    line: Seq<char>,
    i: usize,
    fuel: nat,
)
    requires
        ws_tokens(spec_strip_term(line)).len() == 2,
        lookup(reg, ws_tokens(spec_strip_term(line))[0]) is Some,
        lookup(reg, ws_tokens(spec_strip_term(line))[0])->Some_0.kind is History,
        lookup(reg, ws_tokens(spec_strip_term(line))[0])->Some_0.min_args <= 1,
        spec_parse_index(ws_tokens(spec_strip_term(line))[1]) == Some(i),
        fuel >= 1,
    ensures
        i < hist.len() ==> spec_resolve(reg, hist, line, fuel) == spec_resolve(
            reg,
            hist,
            hist[i as int],
            (fuel - 1) as nat,
        ),
        i >= hist.len() ==> spec_resolve(reg, hist, line, fuel) == Err::<
            ActionView,
            ShellErrorView,
        >(ShellErrorView::InvalidHistory(ws_tokens(spec_strip_term(line))[1])),
{
}

/// The caller's side of a session: the commands it registered beyond the
/// builtins, and the default handler that receives every statement whose
/// first token names no registered command. Implemented by the embedding
/// application; the dispatcher promises nothing about what these return.
pub trait ShellHandler {
    /// Runs the caller command registered under `tag`, with the statement's
    /// remaining tokens as arguments.
    fn run_command(&mut self, out: &mut Vec<String>, tag: u64, args: &Vec<String>) -> Result<
        (),
        ShellError,
    >;

    /// Handles a whole statement, verbatim as typed, whose first token
    /// named no registered command.
    fn run_default(&mut self, out: &mut Vec<String>, statement: &str) -> Result<(), ShellError>;
}

/// The builtin `help` command.
pub open spec fn spec_help_cmd() -> CmdView {
    CmdView {
        name: "help"@,
        description: "list the registered commands"@,
        min_args: 0,
        kind: CmdKind::Help,
    }
}

/// The builtin `history` command.
pub open spec fn spec_history_cmd() -> CmdView {
    CmdView {
        name: "history"@,
        description: "print past statements, or replay one by index"@,
        min_args: 0,
        kind: CmdKind::History,
    }
}

/// The builtin `quit` command.
pub open spec fn spec_quit_cmd() -> CmdView {
    CmdView {
        name: "quit"@,
        description: "leave the shell"@,
        min_args: 0,
        kind: CmdKind::Quit,
    }
}

proof fn lemma_builtin_names_sorted()
    ensures
        seq_lt("help"@, "history"@),
        seq_lt("help"@, "quit"@),
        seq_lt("history"@, "quit"@),
{
    reveal_strlit("help");
    reveal_strlit("history");
    reveal_strlit("quit");
    assert("help"@.drop_first()[0] == 'e');
    assert("history"@.drop_first()[0] == 'i');
    assert(seq_lt("help"@.drop_first(), "history"@.drop_first()));
    assert(seq_lt("help"@, "quit"@));
    assert(seq_lt("history"@, "quit"@));
}

/// One interactive session: the command registry, the history of executed
/// statements, the caller's handler, the two prompts, and the buffer that
/// accumulates a statement across physical lines.
pub struct Shell<H> {
    registry: CommandRegistry,
    history: History,
    handler: H,
    prompt: String,
    prompt_more: String,
    buffer: String,
}

impl<H> Shell<H> {
    pub closed spec fn spec_registry(&self) -> Seq<CmdView> {
        self.registry@
    }

    pub closed spec fn spec_history(&self) -> Seq<Seq<char>> {
        self.history@
    }

    pub closed spec fn spec_history_capacity(&self) -> int {
        self.history.spec_capacity()
    }

    pub closed spec fn spec_handler(&self) -> H {
        self.handler
    }

    pub closed spec fn spec_prompt(&self) -> Seq<char> {
        self.prompt@
    }

    pub closed spec fn spec_prompt_more(&self) -> Seq<char> {
        self.prompt_more@
    }

    pub closed spec fn spec_buffer(&self) -> Seq<char> {
        self.buffer@
    }

    pub closed spec fn inv(&self) -> bool {
        self.registry.inv() && self.history.inv()
    }

    /// How this session routes `line`, with enough replay fuel that only a
    /// replay cycle can exhaust it.
    pub open spec fn spec_dispatch(&self, line: Seq<char>) -> Result<ActionView, ShellErrorView> {
        spec_resolve(
            self.spec_registry(),
            self.spec_history(),
            line,
            (self.spec_history().len() + 1) as nat,
        )
    }
}

impl<H: ShellHandler> Shell<H> {
    /// A fresh session: the three builtins registered, an empty history of
    /// the given capacity, an empty edit buffer.
    pub fn new(handler: H, history_capacity: usize, prompt: String, prompt_more: String) -> (r:
        Shell<H>)
        requires
            1 <= history_capacity < usize::MAX,
        ensures
            r.inv(),
            r.spec_registry() == seq![spec_help_cmd(), spec_history_cmd(), spec_quit_cmd()],
            r.spec_history() == Seq::<Seq<char>>::empty(),
            r.spec_history_capacity() == history_capacity,
            r.spec_handler() == handler,
            r.spec_prompt() == prompt@,
            r.spec_prompt_more() == prompt_more@,
            r.spec_buffer() == Seq::<char>::empty(),
    {
        let mut cmds: Vec<Command> = Vec::new();
        cmds.push(
            Command {
                name: String::from_str("help"),
                description: String::from_str("list the registered commands"),
                min_args: 0,
                kind: CmdKind::Help,
            },
        );
        cmds.push(
            Command {
                name: String::from_str("history"),
                description: String::from_str("print past statements, or replay one by index"),
                min_args: 0,
                kind: CmdKind::History,
            },
        );
        cmds.push(
            Command {
                name: String::from_str("quit"),
                description: String::from_str("leave the shell"),
                min_args: 0,
                kind: CmdKind::Quit,
            },
        );
        let registry = CommandRegistry { cmds };
        proof {
            assert(registry@ =~= seq![spec_help_cmd(), spec_history_cmd(), spec_quit_cmd()]);
            lemma_builtin_names_sorted();
            assert forall|i: int, j: int| 0 <= i < j < registry@.len() implies seq_lt(
                #[trigger] registry@[i].name,
                #[trigger] registry@[j].name,
            ) by {
                if i == 0 && j == 1 {
                    assert(seq_lt("help"@, "history"@));
                } else if i == 0 && j == 2 {
                    assert(seq_lt("help"@, "quit"@));
                } else {
                    assert(seq_lt("history"@, "quit"@));
                }
            }
        }
        Shell {
            registry,
            history: History::new(history_capacity),
            handler,
            prompt,
            prompt_more,
            buffer: String::new(),
        }
    }

    /// Adds or replaces a caller command; every other registration is kept.
    pub fn register(&mut self, cmd: Command)
        requires
            old(self).inv(),
        ensures
            final(self).inv(),
            lookup(final(self).spec_registry(), cmd@.name) == Some(cmd@),
            forall|n: Seq<char>|
                n != cmd@.name ==> #[trigger] lookup(final(self).spec_registry(), n) == lookup(
                    old(self).spec_registry(),
                    n,
                ),
            final(self).spec_history() == old(self).spec_history(),
            final(self).spec_history_capacity() == old(self).spec_history_capacity(),
            final(self).spec_handler() == old(self).spec_handler(),
            final(self).spec_prompt() == old(self).spec_prompt(),
            final(self).spec_prompt_more() == old(self).spec_prompt_more(),
            final(self).spec_buffer() == old(self).spec_buffer(),
    {
        self.registry.register(cmd);
    }

    /// Routes one statement and carries it out: builtins act on the session
    /// itself, anything else goes to the caller's handler. Never touches
    /// the history or the registry; every error leaves the session exactly
    /// as it was.
    pub fn dispatch(&mut self, out: &mut Vec<String>, line: &str) -> (r: Result<(), ShellError>)
        requires
            old(self).inv(),
        ensures
            final(self).inv(),
            final(self).spec_registry() == old(self).spec_registry(),
            final(self).spec_history() == old(self).spec_history(),
            final(self).spec_history_capacity() == old(self).spec_history_capacity(),
            final(self).spec_prompt() == old(self).spec_prompt(),
            final(self).spec_prompt_more() == old(self).spec_prompt_more(),
            final(self).spec_buffer() == old(self).spec_buffer(),
            ({
                let a = old(self).spec_dispatch(line@);
                &&& (a is Err ==> r is Err && r->Err_0@ == a->Err_0 && final(out).deep_view()
                    == old(out).deep_view() && final(self).spec_handler() == old(
                    self,
                ).spec_handler())
                &&& (a == Ok::<ActionView, ShellErrorView>(ActionView::ShowHelp) ==> r is Ok
                    && final(out).deep_view() == old(out).deep_view() + spec_help_lines(
                    old(self).spec_registry(),
                ) && final(self).spec_handler() == old(self).spec_handler())
                &&& (a == Ok::<ActionView, ShellErrorView>(ActionView::ShowHistory) ==> r is Ok
                    && final(out).deep_view() == old(out).deep_view() + spec_history_lines(
                    old(self).spec_history(),
                ) && final(self).spec_handler() == old(self).spec_handler())
            }),
    {
        let fuel = self.history.len() + 1;
        let action = resolve(&self.registry, &self.history, line, fuel);
        match action {
            Err(e) => Err(e),
            Ok(ShellAction::ShowHelp) => {
                let mut lines = self.registry.render_help();
                let ghost o = out.deep_view();
                let ghost l = lines.deep_view();
                out.append(&mut lines);
                proof {
                    assert(out.deep_view() =~= o + l);
                }
                Ok(())
            },
            Ok(ShellAction::ShowHistory) => {
                let mut lines = self.history.render_lines();
                let ghost o = out.deep_view();
                let ghost l = lines.deep_view();
                out.append(&mut lines);
                proof {
                    assert(out.deep_view() =~= o + l);
                }
                Ok(())
            },
            Ok(ShellAction::RunCommand { tag, args }) => self.handler.run_command(out, tag, &args),
            Ok(ShellAction::Forward { statement }) => self.handler.run_default(
                out,
                statement.as_str(),
            ),
        }
    }

    /// Dispatches one statement and, exactly when it succeeded, records it
    /// in the history; an empty line, a failing statement and the `quit`
    /// sentinel all leave the history unchanged.
    pub fn eval(&mut self, out: &mut Vec<String>, line: &str) -> (r: Result<(), ShellError>)
        requires
            old(self).inv(),
        ensures
            final(self).inv(),
            final(self).spec_registry() == old(self).spec_registry(),
            final(self).spec_history_capacity() == old(self).spec_history_capacity(),
            final(self).spec_prompt() == old(self).spec_prompt(),
            final(self).spec_prompt_more() == old(self).spec_prompt_more(),
            final(self).spec_buffer() == old(self).spec_buffer(),
            r is Ok ==> final(self).spec_history() == spec_push(
                old(self).spec_history(),
                old(self).spec_history_capacity(),
                line@,
            ),
            r is Err ==> final(self).spec_history() == old(self).spec_history(),
            ({
                let a = old(self).spec_dispatch(line@);
                &&& (a is Err ==> r is Err && r->Err_0@ == a->Err_0 && final(out).deep_view()
                    == old(out).deep_view() && final(self).spec_handler() == old(
                    self,
                ).spec_handler())
                &&& (a == Ok::<ActionView, ShellErrorView>(ActionView::ShowHelp) ==> r is Ok
                    && final(out).deep_view() == old(out).deep_view() + spec_help_lines(
                    old(self).spec_registry(),
                ) && final(self).spec_handler() == old(self).spec_handler())
                &&& (a == Ok::<ActionView, ShellErrorView>(ActionView::ShowHistory) ==> r is Ok
                    && final(out).deep_view() == old(out).deep_view() + spec_history_lines(
                    old(self).spec_history(),
                ) && final(self).spec_handler() == old(self).spec_handler())
            }),
    {
        match self.dispatch(out, line) {
            Ok(u) => {
                self.history.push(line);
                Ok(u)
            },
            Err(e) => Err(e),
        }
    }

    /// Accumulates one physical line. When the statement built so far
    /// (earlier lines and this one, joined by newlines) is complete, hands
    /// it back whole and clears the buffer; otherwise buffers it and asks
    /// for more input.
    pub fn feed_line(&mut self, line: &str) -> (r: Option<String>)
        requires
            old(self).inv(),
        ensures
            final(self).inv(),
            final(self).spec_registry() == old(self).spec_registry(),
            final(self).spec_history() == old(self).spec_history(),
            final(self).spec_history_capacity() == old(self).spec_history_capacity(),
            final(self).spec_handler() == old(self).spec_handler(),
            final(self).spec_prompt() == old(self).spec_prompt(),
            final(self).spec_prompt_more() == old(self).spec_prompt_more(),
            ({
                let joined = if old(self).spec_buffer().len() == 0 {
                    line@
                } else {
                    old(self).spec_buffer() + seq!['\n'] + line@
                };
                match r {
                    Some(stmt) => crate::complete::spec_is_complete(joined) && stmt@ == joined
                        && final(self).spec_buffer() == Seq::<char>::empty(),
                    None => !crate::complete::spec_is_complete(joined) && final(self).spec_buffer()
                        == joined,
                }
            }),
    {
        let joined: String = if self.buffer.as_str().is_empty() {
            String::from_str(line)
        } else {
            let mut b = self.buffer.clone();
            b.append("\n");
            b.append(line);
            proof {
                reveal_strlit("\n");
                assert("\n"@ =~= seq!['\n']);
            }
            b
        };
        if crate::complete::is_complete(joined.as_str()) {
            self.buffer = String::new();
            Some(joined)
        } else {
            self.buffer = joined;
            None
        }
    }

    /// The prompt for the next physical line: the ordinary prompt, or the
    /// "unclosed" prompt while a statement is still being accumulated.
    pub fn prompt_for_next_line(&self) -> (r: &str)
        ensures
            self.spec_buffer().len() == 0 ==> r@ == self.spec_prompt(),
            self.spec_buffer().len() > 0 ==> r@ == self.spec_prompt_more(),
    {
        if self.buffer.as_str().is_empty() {
            self.prompt.as_str()
        } else {
            self.prompt_more.as_str()
        }
    }

    /// The session's history, for inspection.
    pub fn history(&self) -> (r: &History)
        ensures
            r@ == self.spec_history(),
            r.spec_capacity() == self.spec_history_capacity(),
            self.inv() ==> r.inv(),
    {
        &self.history
    }

    /// A view of the caller's handler.
    pub fn handler_ref(&self) -> (r: &H)
        ensures
            *r == self.spec_handler(),
    {
        &self.handler
    }

    /// Gives the caller's handler back, consuming the session.
    pub fn into_handler(self) -> (r: H)
        ensures
            r == self.spec_handler(),
    {
        let Shell { handler, .. } = self;
        handler
    }
}

} // verus!
