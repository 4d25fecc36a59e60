use vstd::prelude::*;
use crate::settings::Login;

verus! {

/// Which row of the form takes input.
#[derive(Clone, Copy, Debug, PartialEq, Eq, Structural)]
pub enum Mode {
    SelectingSession,
    EditingUsername,
    EditingPassword,
}

/// How far an escape sequence has been read.
#[derive(Clone, Copy, Debug, PartialEq, Eq, Structural)]
pub enum Escape {
    Idle,
    SawEsc,
    SawBracket,
}

/// A session that can be started: its name and the command line that
/// launches it.
#[derive(Clone, Debug)]
pub struct Target {
    pub name: String,
    pub argv: Vec<String>,
}

/// A login to attempt: identity, secret, and the index of the target to
/// start.
#[derive(Debug)]
pub struct LoginRequest {
    pub username: Vec<char>,
    pub password: Vec<char>,
    pub target: usize,
}

/// What the caller has to do after a byte was taken in.
#[derive(Debug)]
pub enum Action {
    /// Nothing beyond redrawing: read the next byte.
    Continue,
    /// Cancel the pending authentication and leave the loop.
    Quit,
    /// Attempt this login, then report the result with `login_result`.
    Login(LoginRequest),
}

/// What the caller has to do after a login attempt came back.
#[derive(Clone, Copy, Debug, PartialEq, Eq, Structural)]
pub enum AfterLogin {
    /// The session starts: leave the loop.
    Done,
    /// The attempt failed: show the failure and cancel the pending
    /// authentication, then go on reading.
    Retry,
}

/// The parts of the form that a redraw repaints.
#[derive(Clone, Copy, Debug, PartialEq, Eq, Structural)]
pub struct RedrawPlan {
    /// Background, heading and the highlights of all visible rows.
    pub chrome: bool,
    pub target: bool,
    pub username: bool,
    /// Clear the username row before drawing it (it got shorter).
    pub username_clear: bool,
    pub password: bool,
    /// Clear the password row before drawing it (it got shorter).
    pub password_clear: bool,
}

/// What was on screen after the last redraw.
#[derive(Clone, Copy, Debug, PartialEq, Eq, Structural)]
pub struct Rendered {
    pub username_len: Option<usize>,
    pub password_len: usize,
    pub target_index: usize,
    pub mode: Mode,
}

/// The greeter's whole input state.
pub struct Greeter {
    pub mode: Mode,
    pub username: Vec<char>,
    pub password: Vec<char>,
    pub target_index: usize,
    pub targets: Vec<Target>,
    /// A username fixed by configuration; its row is hidden.
    pub forced_username: Option<Vec<char>>,
    /// The target is fixed by configuration; the session row is hidden.
    pub lock_target: bool,
    pub escape: Escape,
    pub rendered: Rendered,
    pub had_failure: bool,
}

/// The configuration that the transitions read.
pub struct Setup {
    pub forced: Option<Seq<char>>,
    pub lock_target: bool,
    pub n_targets: nat,
}

/// The state that the transitions change.
pub struct InputState {
    pub mode: Mode,
    pub username: Seq<char>,
    pub password: Seq<char>,
    pub target_index: nat,
    pub escape: Escape,
}

/// What a transition asks of the caller.
pub enum Outcome {
    Continue,
    Quit,
    Login { username: Seq<char>, password: Seq<char>, target: nat },
}

pub open spec fn mode_allowed(c: Setup, m: Mode) -> bool {
    match m {
        Mode::SelectingSession => !c.lock_target,
        Mode::EditingUsername => c.forced is None,
        Mode::EditingPassword => true,
    }
}

pub open spec fn ring_next(m: Mode) -> Mode {
    match m {
        Mode::SelectingSession => Mode::EditingUsername,
        Mode::EditingUsername => Mode::EditingPassword,
        Mode::EditingPassword => Mode::SelectingSession,
    }
}

pub open spec fn ring_prev(m: Mode) -> Mode {
    match m {
        Mode::SelectingSession => Mode::EditingPassword,
        Mode::EditingUsername => Mode::SelectingSession,
        Mode::EditingPassword => Mode::EditingUsername,
    }
}

/// The first allowed mode within three steps forward round the ring, or
/// `m` itself when there is none.
pub open spec fn next_allowed(c: Setup, m: Mode) -> Mode {
    let a = ring_next(m);
    let b = ring_next(a);
    let d = ring_next(b);
    if mode_allowed(c, a) {
        a
    } else if mode_allowed(c, b) {
        b
    } else if mode_allowed(c, d) {
        d
    } else {
        m
    }
}

/// The first allowed mode within three steps backward round the ring, or
/// `m` itself when there is none.
pub open spec fn prev_allowed(c: Setup, m: Mode) -> Mode {
    let a = ring_prev(m);
    let b = ring_prev(a);
    let d = ring_prev(b);
    if mode_allowed(c, a) {
        a
    } else if mode_allowed(c, b) {
        b
    } else if mode_allowed(c, d) {
        d
    } else {
        m
    }
}

/// The editable row that comes first: username unless it is forced.
pub open spec fn first_editable(c: Setup) -> Mode {
    if c.forced is Some {
        Mode::EditingPassword
    } else {
        Mode::EditingUsername
    }
}

/// The identity to log in with.
pub open spec fn identity(c: Setup, s: InputState) -> Seq<char> {
    match c.forced {
        Some(u) => u,
        None => s.username,
    }
}

pub open spec fn with_mode(s: InputState, m: Mode) -> InputState {
    InputState { mode: m, ..s }
}

/// A byte read after `ESC [`.
pub open spec fn step_bracket(c: Setup, s: InputState, b: u8) -> InputState {
    let s = InputState { escape: Escape::Idle, ..s };
    if b == 0x41 {
        with_mode(s, prev_allowed(c, s.mode))
    } else if b == 0x42 {
        with_mode(s, next_allowed(c, s.mode))
    } else if b == 0x43 && s.mode == Mode::SelectingSession && !c.lock_target {
        InputState { target_index: ((s.target_index + 1) % c.n_targets) as nat, ..s }
    } else if b == 0x44 && s.mode == Mode::SelectingSession && !c.lock_target {
        InputState {
            target_index: (if s.target_index == 0 { c.n_targets } else { s.target_index } - 1) as nat,
            ..s
        }
    } else {
        s
    }
}

/// Enter: the step that fits the active row.
pub open spec fn step_submit(c: Setup, s: InputState) -> (InputState, Outcome) {
    match s.mode {
        Mode::SelectingSession => (with_mode(s, first_editable(c)), Outcome::Continue),
        Mode::EditingUsername => if c.forced is None && s.username.len() > 0 {
            (with_mode(s, Mode::EditingPassword), Outcome::Continue)
        } else {
            (s, Outcome::Continue)
        },
        Mode::EditingPassword => if s.password.len() == 0 {
            if c.forced is None {
                (InputState { username: Seq::empty(), mode: Mode::EditingUsername, ..s }, Outcome::Continue)
            } else {
                (s, Outcome::Continue)
            }
        } else {
            (
                InputState { password: Seq::empty(), ..s },
                Outcome::Login { username: identity(c, s), password: s.password, target: s.target_index },
            )
        },
    }
}

/// Whether the active row is one whose text can be edited.
pub open spec fn editing_username(c: Setup, s: InputState) -> bool {
    s.mode == Mode::EditingUsername && c.forced is None
}

/// A byte read outside an escape sequence.
pub open spec fn step_plain(c: Setup, s: InputState, b: u8) -> (InputState, Outcome) {
    if b == 0x15 || b == 0x0b {
        if editing_username(c, s) {
            (InputState { username: Seq::empty(), ..s }, Outcome::Continue)
        } else if s.mode == Mode::EditingPassword {
            (InputState { password: Seq::empty(), ..s }, Outcome::Continue)
        } else {
            (s, Outcome::Continue)
        }
    } else if b == 0x03 || b == 0x04 {
        (InputState { username: Seq::empty(), password: Seq::empty(), ..s }, Outcome::Quit)
    } else if b == 0x7f {
        if editing_username(c, s) && s.username.len() > 0 {
            (InputState { username: s.username.drop_last(), ..s }, Outcome::Continue)
        } else if s.mode == Mode::EditingPassword && s.password.len() > 0 {
            (InputState { password: s.password.drop_last(), ..s }, Outcome::Continue)
        } else {
            (s, Outcome::Continue)
        }
    } else if b == 0x09 {
        (with_mode(s, next_allowed(c, s.mode)), Outcome::Continue)
    } else if b == 0x0d {
        step_submit(c, s)
    } else if b == 0x1b {
        (InputState { escape: Escape::SawEsc, ..s }, Outcome::Continue)
    } else if editing_username(c, s) {
        (InputState { username: s.username.push(b as char), ..s }, Outcome::Continue)
    } else if s.mode == Mode::EditingPassword {
        (InputState { password: s.password.push(b as char), ..s }, Outcome::Continue)
    } else {
        (s, Outcome::Continue)
    }
}

/// The transition on one input byte.
pub open spec fn step(c: Setup, s: InputState, b: u8) -> (InputState, Outcome) {
    match s.escape {
        Escape::SawEsc => if b == 0x5b {
            (InputState { escape: Escape::SawBracket, ..s }, Outcome::Continue)
        } else {
            (InputState { escape: Escape::Idle, ..s }, Outcome::Continue)
        },
        Escape::SawBracket => (step_bracket(c, s, b), Outcome::Continue),
        Escape::Idle => step_plain(c, s, b),
    }
}

pub open spec fn cycle_forward(c: Setup, m: Mode, n: nat) -> Mode
    decreases n,
{
    if n == 0 {
        m
    } else {
        cycle_forward(c, next_allowed(c, m), (n - 1) as nat)
    }
}

pub open spec fn allowed_count(c: Setup) -> nat {
    (if mode_allowed(c, Mode::SelectingSession) { 1nat } else { 0nat }) + (if mode_allowed(
        c,
        Mode::EditingUsername,
    ) {
        1nat
    } else {
        0nat
    }) + 1
}

/// The words that `shell_words::split` makes of a command line, or none
/// when its quoting is left open.
pub uninterp spec fn shell_split(s: Seq<char>) -> Option<Seq<Seq<char>>>;

/// Relies on `shell_words::split`: the words of a command line split as a
/// POSIX shell does, or an error on open quoting, which is dropped here.
#[verifier::external_body]
fn split_command(s: &str) -> (r: Option<Vec<String>>)
    ensures
        r is Some <==> shell_split(s@) is Some,
        r is Some ==> r.unwrap()@.map_values(|w: String| w@) == shell_split(s@).unwrap(),
{
    shell_words::split(s).ok()
}

impl Target {
    /// The target of a desktop entry's fields: named by its name, else by
    /// its id, and launched by its command line split into words; none
    /// without a command line or when it does not split.
    pub fn from_entry(name: Option<String>, appid: &str, exec: Option<&str>) -> (t: Option<Target>)
        ensures
            t is Some <==> exec is Some && shell_split(exec.unwrap()@) is Some,
            t is Some ==> t.unwrap().name@ == (match name {
                Some(n) => n@,
                None => appid@,
            }) && t.unwrap().argv@.map_values(|w: String| w@) == shell_split(exec.unwrap()@).unwrap(),
    {
        let line = match exec {
            Some(line) => line,
            None => return None,
        };
        let argv = match split_command(line) {
            Some(argv) => argv,
            None => return None,
        };
        let name = match name {
            Some(n) => n,
            None => String::from_str(appid),
        };
        Some(Target { name, argv })
    }
}

/// A character of the Unicode property White_Space.
pub open spec fn is_white_space(c: char) -> bool {
    ('\u{9}' <= c && c <= '\u{d}') || c == ' ' || c == '\u{85}' || c == '\u{a0}' || c == '\u{1680}' || (
    '\u{2000}' <= c && c <= '\u{200a}') || c == '\u{2028}' || c == '\u{2029}' || c == '\u{202f}' || c
        == '\u{205f}' || c == '\u{3000}'
}

/// The text without its leading white space.
pub open spec fn trim_start(s: Seq<char>) -> Seq<char>
    decreases s.len(),
{
    if s.len() > 0 && is_white_space(s[0]) {
        trim_start(s.drop_first())
    } else {
        s
    }
}

/// The text without its trailing white space.
pub open spec fn trim_end(s: Seq<char>) -> Seq<char>
    decreases s.len(),
{
    if s.len() > 0 && is_white_space(s.last()) {
        trim_end(s.drop_last())
    } else {
        s
    }
}

/// The text without its leading and trailing white space.
pub open spec fn trimmed(s: Seq<char>) -> Seq<char> {
    trim_end(trim_start(s))
}

/// Relies on `str::trim`: the text without its leading and trailing
/// characters of the Unicode property White_Space.
#[verifier::external_body]
fn trim_text<'a>(s: &'a str) -> (r: &'a str)
    ensures
        r@ == trimmed(s@),
{
    s.trim()
}

/// The characters of a text.
fn chars_of(s: &str) -> (r: Vec<char>)
    ensures
        r@ == s@,
{
    let n = s.unicode_len();
    let mut r: Vec<char> = Vec::new();
    let mut i: usize = 0;
    while i < n
        invariant
            n == s@.len(),
            i <= n,
            r@ == s@.subrange(0, i as int),
        decreases n - i,
    {
        r.push(s.get_char(i));
        i = i + 1;
    }
    r
}

/// Whether two texts hold the same characters.
fn same_text(a: &str, b: &str) -> (r: bool)
    ensures
        r == (a@ == b@),
{
    let n = a.unicode_len();
    if n != b.unicode_len() {
        return false;
    }
    let mut i: usize = 0;
    while i < n
        invariant
            n == a@.len(),
            n == b@.len(),
            i <= n,
            a@.subrange(0, i as int) == b@.subrange(0, i as int),
        decreases n - i,
    {
        if a.get_char(i) != b.get_char(i) {
            return false;
        }
        assert(a@.subrange(0, i + 1) =~= a@.subrange(0, i as int).push(a@[i as int]));
        assert(b@.subrange(0, i + 1) =~= b@.subrange(0, i as int).push(b@[i as int]));
        i = i + 1;
    }
    assert(a@ =~= a@.subrange(0, n as int));
    assert(b@ =~= b@.subrange(0, n as int));
    true
}

/// A configured username forces itself, unless it is empty.
pub open spec fn forced_of(u: Option<Seq<char>>) -> Option<Seq<char>> {
    match u {
        Some(u) => if u.len() > 0 {
            Some(u)
        } else {
            None
        },
        None => None,
    }
}

/// The username that configuration forces: the configured one, trimmed,
/// unless that leaves nothing.
pub open spec fn forced_from(login: Login) -> Option<Seq<char>> {
    forced_of(
        match login.username {
            Some(u) => Some(trimmed(u@)),
            None => None,
        },
    )
}

/// The target selection for the wanted name: the first target of that
/// name, locked; else the first target, open to selection.
pub open spec fn target_choice(targets: Seq<Target>, want: Seq<char>, g: Greeter) -> bool {
    if want.len() > 0 && exists|i: int| first_named(targets, want, i) {
        g.lock_target && first_named(targets, want, g.target_index as int)
    } else {
        !g.lock_target && g.target_index == 0
    }
}

/// The target name that configuration asks for, trimmed; empty when none.
pub open spec fn wanted_target(login: Login) -> Seq<char> {
    match login.target {
        Some(t) => trimmed(t@),
        None => Seq::empty(),
    }
}

/// The index of the first target named `name`, if any.
pub open spec fn first_named(targets: Seq<Target>, name: Seq<char>, i: int) -> bool {
    0 <= i < targets.len() && targets[i].name@ == name && forall|j: int|
        0 <= j < i ==> (#[trigger] targets[j]).name@ != name
}

/// A copy of the characters.
fn copy_chars(v: &Vec<char>) -> (r: Vec<char>)
    ensures
        r@ == v@,
{
    let mut r: Vec<char> = Vec::new();
    let mut i: usize = 0;
    while i < v.len()
        invariant
            i <= v@.len(),
            r@ == v@.subrange(0, i as int),
        decreases v@.len() - i,
    {
        r.push(v[i]);
        i = i + 1;
    }
    r
}

impl Greeter {
    /// A greeter over the discovered targets, with what configuration fixes:
    /// a forced username hides its row; a forced target that names one of
    /// the targets selects the first such and hides the session row, any
    /// other leaves selection open from the first target. The configured
    /// texts are taken trimmed.
    pub fn new(targets: Vec<Target>, login: &Login) -> (g: Greeter)
        requires
            targets@.len() > 0,
        ensures
            g.wf(),
            g.targets == targets,
            g.mode == first_editable(g.setup()),
            g.username@.len() == 0,
            g.password@.len() == 0,
            g.escape == Escape::Idle,
            g.rendered == (Rendered {
                username_len: None,
                password_len: 0,
                target_index: g.target_index,
                mode: g.mode,
            }),
            !g.had_failure,
            g.setup().forced == forced_from(*login),
            target_choice(targets@, wanted_target(*login), g),
    {
        let username = match &login.username {
            Some(u) => Some(trim_text(u.as_str())),
            None => None,
        };
        let target = match &login.target {
            Some(t) => Some(trim_text(t.as_str())),
            None => None,
        };
        Greeter::from_trimmed(targets, username, target)
    }

    /// A greeter whose configured username and target name are given as
    /// they are: an empty one counts as none.
    pub fn from_trimmed(targets: Vec<Target>, username: Option<&str>, target: Option<&str>) -> (g: Greeter)
        requires
            targets@.len() > 0,
        ensures
            g.wf(),
            g.targets == targets,
            g.mode == first_editable(g.setup()),
            g.username@.len() == 0,
            g.password@.len() == 0,
            g.escape == Escape::Idle,
            g.rendered == (Rendered {
                username_len: None,
                password_len: 0,
                target_index: g.target_index,
                mode: g.mode,
            }),
            !g.had_failure,
            g.setup().forced == forced_of(match username {
                Some(u) => Some(u@),
                None => None,
            }),
            target_choice(targets@, match target {
                Some(t) => t@,
                None => Seq::empty(),
            }, g),
    {
        let forced_username = match username {
            Some(u) => if u.unicode_len() > 0 {
                Some(chars_of(u))
            } else {
                None
            },
            None => None,
        };
        let ghost want = match target {
            Some(t) => t@,
            None => Seq::<char>::empty(),
        };
        let mut target_index: usize = 0;
        let mut lock_target = false;
        if let Some(wanted) = target {
            if wanted.unicode_len() > 0 {
                let mut i: usize = 0;
                let mut found = false;
                while i < targets.len() && !found
                    invariant
                        wanted@ == want,
                        i <= targets@.len(),
                        found ==> first_named(targets@, want, i as int),
                        forall|j: int| 0 <= j < i ==> (#[trigger] targets@[j]).name@ != want,
                    decreases (targets@.len() - i) * 2 + if found { 0int } else { 1int },
                {
                    if same_text(targets[i].name.as_str(), wanted) {
                        found = true;
                    } else {
                        i = i + 1;
                    }
                }
                if found {
                    target_index = i;
                    lock_target = true;
                } else {
                    assert forall|k: int| !first_named(targets@, want, k) by {
                        if 0 <= k < targets@.len() {
                            assert(targets@[k].name@ != want);
                        }
                    }
                }
            }
        }
        let mode = if forced_username.is_some() {
            Mode::EditingPassword
        } else {
            Mode::EditingUsername
        };
        Greeter {
            mode,
            username: Vec::new(),
            password: Vec::new(),
            target_index,
            targets,
            forced_username,
            lock_target,
            escape: Escape::Idle,
            rendered: Rendered { username_len: None, password_len: 0, target_index, mode },
            had_failure: false,
        }
    }

    pub open spec fn setup(&self) -> Setup {
        Setup {
            forced: match self.forced_username {
                Some(v) => Some(v@),
                None => None,
            },
            lock_target: self.lock_target,
            n_targets: self.targets@.len(),
        }
    }

    pub open spec fn state(&self) -> InputState {
        InputState {
            mode: self.mode,
            username: self.username@,
            password: self.password@,
            target_index: self.target_index as nat,
            escape: self.escape,
        }
    }

    /// The target index is valid and the active mode is allowed.
    pub open spec fn wf(&self) -> bool {
        &&& self.targets@.len() > 0
        &&& self.target_index < self.targets@.len()
        &&& mode_allowed(self.setup(), self.mode)
    }

    /// The configuration stays as it was.
    pub open spec fn same_setup(&self, other: &Greeter) -> bool {
        &&& self.forced_username == other.forced_username
        &&& self.lock_target == other.lock_target
        &&& self.targets == other.targets
    }

    fn mode_allowed(&self, mode: Mode) -> (r: bool)
        ensures
            r == mode_allowed(self.setup(), mode),
    {
        match mode {
            Mode::SelectingSession => !self.lock_target,
            Mode::EditingUsername => self.forced_username.is_none(),
            Mode::EditingPassword => true,
        }
    }

    fn next_allowed_mode(&self, from: Mode) -> (r: Mode)
        ensures
            r == next_allowed(self.setup(), from),
    {
        let mut cur = from;
        let mut k: usize = 0;
        while k < 3
            invariant
                k <= 3,
                k == 0 ==> cur == from,
                k == 1 ==> cur == ring_next(from) && !mode_allowed(self.setup(), cur),
                k == 2 ==> cur == ring_next(ring_next(from)) && !mode_allowed(self.setup(), ring_next(from))
                    && !mode_allowed(self.setup(), cur),
                k == 3 ==> cur == ring_next(ring_next(ring_next(from))) && !mode_allowed(
                    self.setup(),
                    ring_next(from),
                ) && !mode_allowed(self.setup(), ring_next(ring_next(from))) && !mode_allowed(
                    self.setup(),
                    cur,
                ),
            decreases 3 - k,
        {
            cur = match cur {
                Mode::SelectingSession => Mode::EditingUsername,
                Mode::EditingUsername => Mode::EditingPassword,
                Mode::EditingPassword => Mode::SelectingSession,
            };
            if self.mode_allowed(cur) {
                return cur;
            }
            k = k + 1;
        }
        from
    }

    fn prev_allowed_mode(&self, from: Mode) -> (r: Mode)
        ensures
            r == prev_allowed(self.setup(), from),
    {
        let mut cur = from;
        let mut k: usize = 0;
        while k < 3
            invariant
                k <= 3,
                k == 0 ==> cur == from,
                k == 1 ==> cur == ring_prev(from) && !mode_allowed(self.setup(), cur),
                k == 2 ==> cur == ring_prev(ring_prev(from)) && !mode_allowed(self.setup(), ring_prev(from))
                    && !mode_allowed(self.setup(), cur),
                k == 3 ==> cur == ring_prev(ring_prev(ring_prev(from))) && !mode_allowed(
                    self.setup(),
                    ring_prev(from),
                ) && !mode_allowed(self.setup(), ring_prev(ring_prev(from))) && !mode_allowed(
                    self.setup(),
                    cur,
                ),
            decreases 3 - k,
        {
            cur = match cur {
                Mode::SelectingSession => Mode::EditingPassword,
                Mode::EditingUsername => Mode::SelectingSession,
                Mode::EditingPassword => Mode::EditingUsername,
            };
            if self.mode_allowed(cur) {
                return cur;
            }
            k = k + 1;
        }
        from
    }

    fn goto_next_mode(&mut self)
        ensures
            *final(self) == (Greeter { mode: next_allowed(old(self).setup(), old(self).mode), ..*old(self) }),
    {
        self.mode = self.next_allowed_mode(self.mode);
    }

    fn goto_prev_mode(&mut self)
        ensures
            *final(self) == (Greeter { mode: prev_allowed(old(self).setup(), old(self).mode), ..*old(self) }),
    {
        self.mode = self.prev_allowed_mode(self.mode);
    }

    /// The first editable row.
    fn first_editable(&self) -> (m: Mode)
        ensures
            m == first_editable(self.setup()),
    {
        if self.forced_username.is_some() {
            Mode::EditingPassword
        } else {
            Mode::EditingUsername
        }
    }

    /// Takes in one byte of input: the transition `step`, performed.
    pub fn handle_byte(&mut self, b: u8) -> (a: Action)
        requires
            old(self).wf(),
        ensures
            final(self).wf(),
            final(self).same_setup(old(self)),
            final(self).rendered == old(self).rendered,
            final(self).had_failure == old(self).had_failure,
            final(self).state() == step(old(self).setup(), old(self).state(), b).0,
            match (a, step(old(self).setup(), old(self).state(), b).1) {
                (Action::Continue, Outcome::Continue) => true,
                (Action::Quit, Outcome::Quit) => true,
                (Action::Login(r), Outcome::Login { username, password, target }) => r.username@
                    == username && r.password@ == password && r.target == target,
                _ => false,
            },
    {
        match self.escape {
            Escape::SawEsc => {
                self.escape = if b == 0x5b { Escape::SawBracket } else { Escape::Idle };
                return Action::Continue;
            },
            Escape::SawBracket => {
                self.escape = Escape::Idle;
                if b == 0x41 {
                    self.goto_prev_mode();
                } else if b == 0x42 {
                    self.goto_next_mode();
                } else if b == 0x43 {
                    if self.mode == Mode::SelectingSession && !self.lock_target {
                        let n = self.targets.len();
                        self.target_index = (self.target_index + 1) % n;
                    }
                } else if b == 0x44 {
                    if self.mode == Mode::SelectingSession && !self.lock_target {
                        if self.target_index == 0 {
                            self.target_index = self.targets.len();
                        }
                        self.target_index = self.target_index - 1;
                    }
                }
                return Action::Continue;
            },
            Escape::Idle => {},
        }
        let editing_username = self.mode == Mode::EditingUsername && self.forced_username.is_none();
        if b == 0x15 || b == 0x0b {
            // clear the active field
            if editing_username {
                self.username.clear();
            } else if self.mode == Mode::EditingPassword {
                self.password.clear();
            }
            Action::Continue
        } else if b == 0x03 || b == 0x04 {
            self.username.clear();
            self.password.clear();
            Action::Quit
        } else if b == 0x7f {
            // backspace
            if editing_username {
                self.username.pop();
            } else if self.mode == Mode::EditingPassword {
                self.password.pop();
            }
            Action::Continue
        } else if b == 0x09 {
            self.goto_next_mode();
            Action::Continue
        } else if b == 0x0d {
            self.submit()
        } else if b == 0x1b {
            self.escape = Escape::SawEsc;
            Action::Continue
        } else {
            if editing_username {
                self.username.push(b as char);
            } else if self.mode == Mode::EditingPassword {
                self.password.push(b as char);
            }
            Action::Continue
        }
    }

    /// Enter outside an escape sequence.
    fn submit(&mut self) -> (a: Action)
        requires
            old(self).wf(),
            old(self).escape == Escape::Idle,
        ensures
            final(self).wf(),
            final(self).same_setup(old(self)),
            final(self).rendered == old(self).rendered,
            final(self).had_failure == old(self).had_failure,
            final(self).state() == step_submit(old(self).setup(), old(self).state()).0,
            match (a, step_submit(old(self).setup(), old(self).state()).1) {
                (Action::Continue, Outcome::Continue) => true,
                (Action::Login(r), Outcome::Login { username, password, target }) => r.username@
                    == username && r.password@ == password && r.target == target,
                _ => false,
            },
    {
        match self.mode {
            Mode::SelectingSession => {
                self.mode = self.first_editable();
                Action::Continue
            },
            Mode::EditingUsername => {
                if self.forced_username.is_none() && self.username.len() > 0 {
                    self.mode = Mode::EditingPassword;
                }
                Action::Continue
            },
            Mode::EditingPassword => {
                if self.password.len() == 0 {
                    if self.forced_username.is_none() {
                        self.username.clear();
                        self.mode = Mode::EditingUsername;
                    }
                    Action::Continue
                } else {
                    let username = match &self.forced_username {
                        Some(u) => copy_chars(u),
                        None => copy_chars(&self.username),
                    };
                    let mut password: Vec<char> = Vec::new();
                    std::mem::swap(&mut password, &mut self.password);
                    Action::Login(LoginRequest { username, password, target: self.target_index })
                }
            },
        }
    }

    /// Takes in the result of the login attempt that the last `Action::Login`
    /// asked for: both buffers end empty; on failure the first editable row
    /// becomes active and the next redraw repaints everything.
    pub fn login_result(&mut self, succeeded: bool) -> (a: AfterLogin)
        requires
            old(self).wf(),
        ensures
            final(self).wf(),
            final(self).same_setup(old(self)),
            final(self).rendered == old(self).rendered,
            final(self).state() == after_login(old(self).setup(), old(self).state(), succeeded),
            final(self).had_failure == (old(self).had_failure || !succeeded),
            a == (if succeeded { AfterLogin::Done } else { AfterLogin::Retry }),
    {
        self.username.clear();
        self.password.clear();
        if succeeded {
            AfterLogin::Done
        } else {
            self.mode = self.first_editable();
            self.had_failure = true;
            AfterLogin::Retry
        }
    }

    /// Decides what to repaint since the last redraw, and records the
    /// current state as drawn.
    pub fn plan_redraw(&mut self) -> (p: RedrawPlan)
        requires
            old(self).wf(),
        ensures
            p == redraw_plan(*old(self)),
            *final(self) == (Greeter {
                rendered: Rendered {
                    username_len: Some(old(self).username@.len() as usize),
                    password_len: old(self).password@.len() as usize,
                    target_index: old(self).target_index,
                    mode: old(self).mode,
                },
                had_failure: false,
                ..*old(self)
            }),
    {
        let show_session = !self.lock_target;
        let show_username = self.forced_username.is_none();
        let ulen = self.username.len();
        let plen = self.password.len();
        let plan = if self.mode != self.rendered.mode || self.had_failure {
            RedrawPlan {
                chrome: true,
                target: show_session,
                username: show_username,
                username_clear: true,
                password: true,
                password_clear: true,
            }
        } else {
            let (username, username_clear) = match self.rendered.username_len {
                Some(last) => (show_username && ulen != last, ulen < last),
                None => (show_username, false),
            };
            RedrawPlan {
                chrome: false,
                target: show_session && self.target_index != self.rendered.target_index,
                username,
                username_clear,
                password: plen != self.rendered.password_len,
                password_clear: plen < self.rendered.password_len,
            }
        };
        self.rendered = Rendered {
            username_len: Some(ulen),
            password_len: plen,
            target_index: self.target_index,
            mode: self.mode,
        };
        self.had_failure = false;
        plan
    }
}

/// The state after a login attempt came back.
pub open spec fn after_login(c: Setup, s: InputState, succeeded: bool) -> InputState {
    InputState {
        username: Seq::empty(),
        password: Seq::empty(),
        mode: if succeeded { s.mode } else { first_editable(c) },
        ..s
    }
}

/// What changed since the last redraw: a change of mode or a failed login
/// repaints everything; otherwise each row whose content changed is
/// repainted, and cleared first when its text got shorter.
pub open spec fn redraw_plan(g: Greeter) -> RedrawPlan {
    let show_session = !g.lock_target;
    let show_username = g.forced_username is None;
    let ulen = g.username@.len();
    let plen = g.password@.len();
    if g.mode != g.rendered.mode || g.had_failure {
        RedrawPlan {
            chrome: true,
            target: show_session,
            username: show_username,
            username_clear: true,
            password: true,
            password_clear: true,
        }
    } else {
        RedrawPlan {
            chrome: false,
            target: show_session && g.target_index != g.rendered.target_index,
            username: show_username && match g.rendered.username_len {
                Some(last) => ulen != last,
                None => true,
            },
            username_clear: match g.rendered.username_len {
                Some(last) => ulen < last,
                None => false,
            },
            password: plen != g.rendered.password_len,
            password_clear: plen < g.rendered.password_len,
        }
    }
}

/// Cycling never leaves the allowed modes: one step forward or backward
/// lands on an allowed mode, and from an allowed mode as many steps forward
/// as there are allowed modes come back to it, as do six.
pub proof fn lemma_cycling_stays_allowed(c: Setup, m: Mode)
    requires
        mode_allowed(c, m),
    ensures
        mode_allowed(c, next_allowed(c, m)),
        mode_allowed(c, prev_allowed(c, m)),
        cycle_forward(c, m, allowed_count(c)) == m,
        cycle_forward(c, m, 6) == m,
{
    reveal_with_fuel(cycle_forward, 7);
}

proof fn lemma_cycle_split(c: Setup, m: Mode, a: nat, b: nat)
    ensures
        cycle_forward(c, m, a + b) == cycle_forward(c, cycle_forward(c, m, a), b),
    decreases a,
{
    if a > 0 {
        lemma_cycle_split(c, next_allowed(c, m), (a - 1) as nat, b);
        assert((a + b - 1) as nat == ((a - 1) as nat + b) as nat);
    }
}

proof fn lemma_cycle_mod(c: Setup, m: Mode, n: nat)
    requires
        mode_allowed(c, m),
    ensures
        cycle_forward(c, m, n) == cycle_forward(c, m, n % allowed_count(c)),
    decreases n,
{
    let k = allowed_count(c);
    lemma_cycling_stays_allowed(c, m);
    if n >= k {
        lemma_cycle_split(c, m, k, (n - k) as nat);
        assert((k + (n - k)) as nat == n);
        lemma_cycle_mod(c, m, (n - k) as nat);
        assert((n - k) as nat % k == n % k) by (nonlinear_arith)
            requires
                n >= k,
                k > 0,
        ;
    } else {
        assert(n % k == n) by (nonlinear_arith)
            requires
                n < k,
        ;
    }
}

/// Cycling forward from an allowed mode comes back to it after `n` steps
/// exactly when `n` is a multiple of the number of allowed modes, and each
/// mode it passes is allowed.
pub proof fn lemma_cycle_returns_iff(c: Setup, m: Mode, n: nat)
    requires
        mode_allowed(c, m),
    ensures
        cycle_forward(c, m, n) == m <==> n % allowed_count(c) == 0,
        mode_allowed(c, cycle_forward(c, m, n)),
    decreases n,
{
    let k = allowed_count(c);
    lemma_cycle_mod(c, m, n);
    let r = n % k;
    assert(r < k) by (nonlinear_arith)
        requires
            k > 0,
            r == n % k,
    ;
    reveal_with_fuel(cycle_forward, 3);
    if n > 0 {
        lemma_cycling_stays_allowed(c, m);
        lemma_cycle_returns_iff(c, next_allowed(c, m), (n - 1) as nat);
    }
}

/// Tab, outside an escape sequence, moves to the next allowed mode and
/// changes nothing else.
pub proof fn lemma_tab_moves_forward(c: Setup, s: InputState)
    requires
        s.escape == Escape::Idle,
        mode_allowed(c, s.mode),
    ensures
        step(c, s, 0x09).0 == with_mode(s, next_allowed(c, s.mode)),
        step(c, s, 0x09).1 is Continue,
        mode_allowed(c, step(c, s, 0x09).0.mode),
{
    lemma_cycling_stays_allowed(c, s.mode);
}

/// Nine steps forward from an allowed mode come back to it whenever the
/// number of allowed modes divides nine, and each mode passed is allowed.
pub proof fn lemma_nine_steps_return(c: Setup, m: Mode, k: nat)
    requires
        mode_allowed(c, m),
        allowed_count(c) != 2,
        k <= 9,
    ensures
        cycle_forward(c, m, 9) == m,
        mode_allowed(c, cycle_forward(c, m, k)),
    decreases k,
{
    reveal_with_fuel(cycle_forward, 10);
    if k > 0 {
        lemma_nine_steps_return(c, next_allowed(c, m), (k - 1) as nat);
    }
}

/// A login attempt leaves no secret behind: the byte that starts it empties
/// the password buffer at once, any result leaves both buffers empty, and a
/// failure makes the first editable row active.
pub proof fn lemma_login_clears_buffers(c: Setup, s: InputState, b: u8, succeeded: bool)
    requires
        step(c, s, b).1 is Login,
    ensures
        step(c, s, b).0.password.len() == 0,
        after_login(c, step(c, s, b).0, succeeded).password.len() == 0,
        after_login(c, step(c, s, b).0, succeeded).username.len() == 0,
        !succeeded ==> after_login(c, step(c, s, b).0, succeeded).mode == first_editable(c),
{
}

/// The state after taking in the bytes `bs` one after another.
pub open spec fn run(c: Setup, s: InputState, bs: Seq<u8>) -> InputState
    decreases bs.len(),
{
    if bs.len() == 0 {
        s
    } else {
        step(c, run(c, s, bs.drop_last()), bs.last()).0
    }
}

/// Each character of `p` is one of the bytes `bs`, read as a character.
pub open spec fn made_of(p: Seq<char>, bs: Seq<u8>) -> bool {
    forall|j: int| 0 <= j < p.len() ==> exists|k: int| 0 <= k < bs.len() && #[trigger] p[j] == bs[k] as char
}

proof fn lemma_step_password(c: Setup, s: InputState, b: u8)
    ensures
        ({
            let p = step(c, s, b).0.password;
            p == s.password || p.len() == 0 || (s.password.len() > 0 && p == s.password.drop_last()) || p
                == s.password.push(b as char)
        }),
{
}

proof fn lemma_run_password_made_of(c: Setup, s: InputState, bs: Seq<u8>)
    requires
        s.password.len() == 0,
    ensures
        made_of(run(c, s, bs).password, bs),
    decreases bs.len(),
{
    if bs.len() > 0 {
        let prev = bs.drop_last();
        lemma_run_password_made_of(c, s, prev);
        let before = run(c, s, prev);
        let b = bs.last();
        lemma_step_password(c, before, b);
        let p = run(c, s, bs).password;
        assert forall|j: int| 0 <= j < p.len() implies exists|k: int|
            0 <= k < bs.len() && #[trigger] p[j] == bs[k] as char by {
            if j < before.password.len() {
                assert(p[j] == before.password[j]);
                let k = choose|k: int| 0 <= k < prev.len() && before.password[j] == prev[k] as char;
                assert(bs[k] == prev[k]);
            } else {
                assert(p[j] == bs[bs.len() - 1] as char);
            }
        }
    }
}

/// A login attempt sends a non-empty secret made only of the bytes read
/// since the password buffer was last empty (at the start, or after the
/// attempt before), and empties the buffer at once.
pub proof fn lemma_secret_from_recent_bytes(c: Setup, s: InputState, bs: Seq<u8>, b: u8)
    requires
        s.password.len() == 0,
        step(c, run(c, s, bs), b).1 is Login,
    ensures
        match step(c, run(c, s, bs), b).1 {
            Outcome::Login { password, .. } => password.len() > 0 && made_of(password, bs),
            _ => false,
        },
        step(c, run(c, s, bs), b).0.password.len() == 0,
{
    lemma_run_password_made_of(c, s, bs);
}

/// An escape sequence that names no key (`ESC [ Z`) changes neither the
/// mode, nor the buffers, nor the selected target.
pub proof fn lemma_unknown_escape_ignored(c: Setup, s: InputState)
    requires
        s.escape == Escape::Idle,
    ensures
        ({
            let s1 = step(c, s, 0x1b).0;
            let s2 = step(c, s1, 0x5b).0;
            let s3 = step(c, s2, 0x5a).0;
            &&& s3 == s
            &&& step(c, s, 0x1b).1 is Continue
            &&& step(c, s1, 0x5b).1 is Continue
            &&& step(c, s2, 0x5a).1 is Continue
        }),
{
}

} // verus!
