//! The TCP front end used by the Python API: locating the JSON payload of an
//! HTTP request, turning the decoded commands into simulator events,
//! tracking the connection state and framing the HTTP response.

use vstd::prelude::*;
use crate::models::Model;
use crate::multibody::ChildMap;
use crate::text::{chars_of, string_of, push_chars, decimal_string, decimal, digits_value, is_digit_char, lemma_decimal_value, lemma_decimal_digits};

verus! {

// ----------------------------------------------------------------------
// Locating the JSON line of a request
// ----------------------------------------------------------------------

/// Number of characters before the first line feed of `s` (all of `s` when
/// it has none).
pub open spec fn line_len(s: Seq<char>) -> nat
    decreases s.len(),
{
    if s.len() == 0 {
        0
    } else if s[0] == '\n' {
        0
    } else {
        1 + line_len(s.drop_first())
    }
}

/// A line without the carriage return of a `\r\n` line ending.
pub open spec fn strip_cr(t: Seq<char>) -> Seq<char> {
    if t.len() > 0 && t.last() == '\r' {
        t.drop_last()
    } else {
        t
    }
}

pub proof fn lemma_line_len_bound(s: Seq<char>)
    ensures
        line_len(s) <= s.len(),
        line_len(s) < s.len() ==> s[line_len(s) as int] == '\n',
        forall|j: int| 0 <= j < line_len(s) ==> s[j] != '\n',
    decreases s.len(),
{
    if s.len() > 0 && s[0] != '\n' {
        lemma_line_len_bound(s.drop_first());
        assert forall|j: int| 0 <= j < line_len(s) implies s[j] != '\n' by {
            if j > 0 {
                assert(s[j] == s.drop_first()[j - 1]);
            }
        }
        if line_len(s) < s.len() {
            assert(s[line_len(s) as int] == s.drop_first()[line_len(s) - 1]);
        }
    }
}

/// The lines of `s` as `str::lines` yields them: split at `\n`, each line
/// without its `\n` nor the `\r` just before it; a final line ending is
/// optional and a final line without one is kept as it stands.
pub open spec fn lines(s: Seq<char>) -> Seq<Seq<char>>
    decreases s.len(),
{
    if s.len() == 0 {
        Seq::empty()
    } else {
        let k = line_len(s);
        if k >= s.len() {
            seq![s]
        } else {
            seq![strip_cr(s.take(k as int))] + lines(s.skip(k as int + 1))
        }
    }
}

/// Whether a line starts with an opening brace.
pub open spec fn opens_object(line: Seq<char>) -> bool {
    line.len() > 0 && line[0] == '{'
}

/// The first of `ls` that starts with an opening brace.
pub open spec fn first_object_line(ls: Seq<Seq<char>>) -> Option<Seq<char>>
    decreases ls.len(),
{
    if ls.len() == 0 {
        None
    } else if opens_object(ls[0]) {
        Some(ls[0])
    } else {
        first_object_line(ls.drop_first())
    }
}

/// The JSON payload of an HTTP request: its first line that starts with `{`.
pub open spec fn json_line(request: Seq<char>) -> Option<Seq<char>> {
    first_object_line(lines(request))
}

pub open spec fn parse_error_text() -> Seq<char> {
    "Failed to parse http request"@
}

proof fn lemma_line_len_exact(s: Seq<char>, m: int)
    requires
        0 <= m <= s.len(),
        forall|j: int| 0 <= j < m ==> s[j] != '\n',
        m < s.len() ==> s[m] == '\n',
    ensures
        line_len(s) == m,
    decreases s.len(),
{
    if s.len() > 0 && m > 0 {
        assert forall|j: int| 0 <= j < m - 1 implies s.drop_first()[j] != '\n' by {
            assert(s.drop_first()[j] == s[j + 1]);
        }
        if m - 1 < s.len() - 1 {
            assert(s.drop_first()[m - 1] == s[m]);
        }
        lemma_line_len_exact(s.drop_first(), m - 1);
    }
}

proof fn lemma_first_object_line_concat(a: Seq<char>, rest: Seq<Seq<char>>)
    ensures
        first_object_line(seq![a] + rest) == (if opens_object(a) {
            Some(a)
        } else {
            first_object_line(rest)
        }),
{
    let ls = seq![a] + rest;
    assert(ls[0] == a);
    assert(ls.drop_first() == rest);
}

/// A line of `s` starts at `p`: at the start of `s` or just after a line
/// feed.
pub open spec fn line_start(s: Seq<char>, p: int) -> bool {
    0 <= p <= s.len() && (p == 0 || s[p - 1] == '\n')
}

/// No line of `s` starts with an opening brace.
pub open spec fn no_object_line(s: Seq<char>) -> bool {
    forall|q: int| 0 <= q < s.len() && #[trigger] line_start(s, q) ==> s[q] != '{'
}

/// `l` is the line of `req` that starts at `p`, it starts with an opening
/// brace, and no earlier line does: `l` is the text from `p` to the end of
/// the line, without the line feed that ends it nor the carriage return of
/// a `\r\n` ending (a last line without a line feed is kept whole).
pub open spec fn first_object_line_at(req: Seq<char>, p: int, l: Seq<char>) -> bool {
    let e = p + l.len();
    &&& line_start(req, p)
    &&& e <= req.len()
    &&& req.subrange(p, e) == l
    &&& l.len() > 0 && l[0] == '{'
    &&& forall|i: int| 0 <= i < l.len() ==> #[trigger] l[i] != '\n'
    &&& (e == req.len() || (req[e] == '\n' && l.last() != '\r') || (req[e] == '\r' && e + 1 < req.len() && req[e
        + 1] == '\n'))
    &&& forall|q: int| 0 <= q < p && #[trigger] line_start(req, q) ==> req[q] != '{'
}

/// What `json_line` finds in `req`, in terms of the text of `req`.
pub open spec fn json_line_found(req: Seq<char>) -> bool {
    match json_line(req) {
        Some(l) => exists|p: int| first_object_line_at(req, p, l),
        None => no_object_line(req),
    }
}

/// The JSON line of a request is its first line that starts with `{`, cut
/// at its line ending as `str::lines` cuts it; a request has none exactly
/// when none of its lines starts with `{`.
pub proof fn lemma_json_line_found(req: Seq<char>)
    ensures
        match json_line(req) {
            Some(l) => exists|p: int| first_object_line_at(req, p, l),
            None => no_object_line(req),
        },
    decreases req.len(),
{
    if req.len() == 0 {
        assert(lines(req) == Seq::<Seq<char>>::empty());
        assert(no_object_line(req));
    } else {
        lemma_line_len_bound(req);
        if line_len(req) >= req.len() {
            lemma_json_line_single(req);
        } else {
            let k = line_len(req) as int;
            let rest = req.skip(k + 1);
            lemma_json_line_found(rest);
            lemma_json_line_step(req);
        }
    }
    assert(json_line_found(req));
}

proof fn lemma_json_line_single(s: Seq<char>)
    requires
        s.len() > 0,
        line_len(s) >= s.len(),
    ensures
        json_line_found(s),
{
    lemma_line_len_bound(s);
    assert(lines(s) == seq![s]);
    lemma_first_object_line_concat(s, Seq::empty());
    assert(seq![s] + Seq::<Seq<char>>::empty() =~= seq![s]);
    if opens_object(s) {
        assert(json_line(s) == Some(s));
        assert(s.subrange(0, s.len() as int) =~= s);
        assert(first_object_line_at(s, 0, s));
        assert(first_object_line_at(s, 0, json_line(s)->0));
    } else {
        assert(json_line(s) == first_object_line(Seq::<Seq<char>>::empty()));
        assert forall|q: int| 0 <= q < s.len() && #[trigger] line_start(s, q) implies s[q] != '{' by {
            if q > 0 {
                assert(s[q - 1] != '\n');
            }
        }
    }
}

proof fn lemma_json_line_step(s: Seq<char>)
    requires
        line_len(s) < s.len(),
        json_line_found(s.skip(line_len(s) as int + 1)),
    ensures
        json_line_found(s),
{
    lemma_line_len_bound(s);
    let k = line_len(s) as int;
    let t = s.take(k);
    let rest = s.skip(k + 1);
    let first = strip_cr(t);
    assert(lines(s) == seq![first] + lines(rest));
    lemma_first_object_line_concat(first, lines(rest));
    assert(s[k] == '\n');
    assert(first.len() == k || (first.len() == k - 1 && s[k - 1] == '\r'));
    assert forall|i: int| 0 <= i < first.len() implies first[i] == s[i] && s[i] != '\n' by {
        assert(first[i] == t[i]);
    }
    if opens_object(first) {
        let e = first.len() as int;
        assert(s.subrange(0, e) =~= first);
        if first.len() == k {
            assert(first == t);
            assert(t.last() == s[k - 1]);
        }
        assert(json_line(s) == Some(first));
        assert(first_object_line_at(s, 0, first));
        assert(first_object_line_at(s, 0, json_line(s)->0));
    } else {
        assert(json_line(s) == json_line(rest));
        lemma_json_line_later(s);
    }
}

proof fn lemma_json_line_later(s: Seq<char>)
    requires
        line_len(s) < s.len(),
        json_line_found(s.skip(line_len(s) as int + 1)),
        !opens_object(strip_cr(s.take(line_len(s) as int))),
        json_line(s) == json_line(s.skip(line_len(s) as int + 1)),
    ensures
        json_line_found(s),
{
    lemma_line_len_bound(s);
    let k = line_len(s) as int;
    let t = s.take(k);
    let rest = s.skip(k + 1);
    let first = strip_cr(t);
    assert(first.len() == k || (first.len() == k - 1 && s[k - 1] == '\r'));
    // no line of `s` that starts before `rest` opens an object
    assert forall|q: int| 0 <= q <= k && #[trigger] line_start(s, q) implies s[q] != '{' by {
        if q > 0 {
            assert(s[q - 1] != '\n');
        } else if first.len() > 0 {
            assert(first[0] == t[0]);
        } else if k > 0 {
            assert(t[0] == '\r');
        }
    }
    // lines of `rest` are lines of `s`, shifted
    assert forall|q: int| k + 1 <= q <= s.len() implies #[trigger] line_start(s, q) == line_start(
        rest,
        q - (k + 1),
    ) by {
        if q > k + 1 {
            assert(rest[q - (k + 1) - 1] == s[q - 1]);
        }
    }
    assert forall|q: int| k + 1 <= q < s.len() implies #[trigger] s[q] == rest[q - (k + 1)] by {}
    match json_line(rest) {
        Some(l) => {
            let p2 = choose|p: int| first_object_line_at(rest, p, l);
            let p = p2 + k + 1;
            assert(line_start(s, p) == line_start(rest, p2));
            assert(s.subrange(p, p + l.len()) =~= rest.subrange(p2, p2 + l.len()));
            assert forall|q: int| 0 <= q < p && #[trigger] line_start(s, q) implies s[q] != '{' by {
                if q > k {
                    assert(line_start(rest, q - (k + 1)));
                }
            }
            let e = p + l.len();
            if e < s.len() {
                assert(s[e] == rest[p2 + l.len()]);
                if e + 1 < s.len() {
                    assert(s[e + 1] == rest[p2 + l.len() + 1]);
                }
            }
            assert(first_object_line_at(s, p, l));
        },
        None => {
            assert forall|q: int| 0 <= q < s.len() && #[trigger] line_start(s, q) implies s[q] != '{' by {
                if q > k {
                    assert(line_start(rest, q - (k + 1)));
                }
            }
        },
    }
}

/// Finds the JSON payload of an HTTP request: the first line of the request
/// that starts with `{`. A request without one is an error.
pub fn parse(request_str: &str) -> (r: Result<String, String>)
    ensures
        match r {
            Ok(line) => json_line(request_str@) == Some(line@),
            Err(e) => json_line(request_str@) is None && e@ == parse_error_text(),
        },
{
    let s = chars_of(request_str);
    let n = s.len();
    let ghost whole = request_str@;
    let mut start: usize = 0;
    assert(whole.skip(0) == whole);
    while start < n
        invariant
            s@ == whole,
            whole == request_str@,
            n == s.len(),
            start <= n,
            json_line(whole) == first_object_line(lines(whole.skip(start as int))),
        decreases n - start,
    {
        let ghost t = whole.skip(start as int);
        let mut k: usize = start;
        while k < n && s[k] != '\n'
            invariant
                s@ == whole,
                whole == request_str@,
                n == s.len(),
                start <= k <= n,
                forall|j: int| start <= j < k ==> whole[j] != '\n',
                json_line(whole) == first_object_line(lines(whole.skip(start as int))),
            decreases n - k,
        {
            k = k + 1;
        }
        proof {
            assert forall|j: int| 0 <= j < k - start implies t[j] != '\n' by {
                assert(t[j] == whole[start + j]);
            }
            if k < n {
                assert(t[k - start] == whole[k as int]);
            }
            lemma_line_len_exact(t, k - start);
        }
        // the line without its terminator
        let mut end = k;
        if k < n && end > start && s[end - 1] == '\r' {
            end = end - 1;
        }
        let mut line: Vec<char> = Vec::new();
        let mut i = start;
        while i < end
            invariant
                s@ == whole,
                whole == request_str@,
                n == s.len(),
                start <= i <= end,
                end <= n,
                line@ == whole.subrange(start as int, i as int),
                json_line(whole) == first_object_line(lines(whole.skip(start as int))),
            decreases end - i,
        {
            line.push(s[i]);
            i = i + 1;
            assert(line@ == whole.subrange(start as int, i as int));
        }
        proof {
            let raw = t.take((k - start) as int);
            assert(raw == whole.subrange(start as int, k as int));
            if k < n {
                assert(line@ == strip_cr(raw));
                assert(t.skip((k - start) + 1) == whole.skip(k + 1));
                assert(lines(t) == seq![strip_cr(raw)] + lines(t.skip((k - start) + 1)));
                lemma_first_object_line_concat(strip_cr(raw), lines(whole.skip(k + 1)));
            } else {
                assert(line@ == t);
                assert(lines(t) == seq![t]);
                lemma_first_object_line_concat(t, Seq::empty());
                assert(seq![t] + Seq::<Seq<char>>::empty() == seq![t]);
            }
        }
        if line.len() > 0 && line[0] == '{' {
            assert(opens_object(line@));
            assert(first_object_line(lines(t)) == Some(line@));
            let found = string_of(&line);
            assert(json_line(request_str@) == Some(found@));
            return Ok(found);
        }
        if k < n {
            start = k + 1;
        } else {
            proof {
                assert(first_object_line(Seq::<Seq<char>>::empty()) is None);
            }
            start = n;
            assert(whole.skip(n as int) == Seq::<char>::empty());
        }
    }
    proof {
        assert(whole.skip(start as int) == Seq::<char>::empty());
        assert(lines(Seq::<char>::empty()) == Seq::<Seq<char>>::empty());
    }
    Err("Failed to parse http request".to_owned())
}


// ----------------------------------------------------------------------
// Commands of a request and the events they raise
// ----------------------------------------------------------------------

/// One command of a request. `S` is where and how a model is placed (its
/// position and color); `M` is a motor command (joint names and targets).
pub enum TcpCommand<S, M> {
    Close,
    GetState,
    Restart,
    SpawnModel { model: Model, placement: S },
    Despawn { name: String },
    ApplyMotorCommand { body_name: String, command: M },
    PausePhysics,
    RunPhysics,
    IsAlive,
    /// The command that the wire format calls `None`: it does nothing.
    NoCommand,
}

/// The decoded body of a request: its commands, in order.
pub struct HttpRequest<S, M> {
    pub actions: Vec<TcpCommand<S, M>>,
}

/// A request that the TCP front end passes on to the simulator.
pub enum SystemRequestEvent<M> {
    ExitApp,
    GetState,
    PausePhysics,
    StartPhysics,
    IsAlive,
    ApplyMotorCommand { body_name: String, command: M },
    Despawn { name: String },
}

/// An event raised while a request is handled: a request to the simulator,
/// a request to spawn a model, or the answer that a model was spawned.
pub enum TcpEvent<S, M> {
    System(SystemRequestEvent<M>),
    Spawn { model: Model, placement: S },
    SpawnedModel,
}

/// The events that one command raises, in order.
pub open spec fn command_events<S, M>(c: TcpCommand<S, M>) -> Seq<TcpEvent<S, M>> {
    match c {
        TcpCommand::Close => seq![TcpEvent::System(SystemRequestEvent::ExitApp)],
        TcpCommand::SpawnModel { model, placement } => seq![
            TcpEvent::Spawn { model, placement },
            TcpEvent::SpawnedModel,
        ],
        TcpCommand::GetState => seq![TcpEvent::System(SystemRequestEvent::GetState)],
        TcpCommand::PausePhysics => seq![TcpEvent::System(SystemRequestEvent::PausePhysics)],
        TcpCommand::RunPhysics => seq![TcpEvent::System(SystemRequestEvent::StartPhysics)],
        TcpCommand::IsAlive => seq![TcpEvent::System(SystemRequestEvent::IsAlive)],
        TcpCommand::ApplyMotorCommand { body_name, command } => seq![
            TcpEvent::System(SystemRequestEvent::ApplyMotorCommand { body_name, command }),
        ],
        TcpCommand::Despawn { name } => seq![
            TcpEvent::System(SystemRequestEvent::Despawn { name }),
        ],
        TcpCommand::Restart => Seq::empty(),
        TcpCommand::NoCommand => Seq::empty(),
    }
}

/// The events that a sequence of commands raises: those of each command, in
/// the order of the commands.
pub open spec fn request_events<S, M>(cs: Seq<TcpCommand<S, M>>) -> Seq<TcpEvent<S, M>>
    decreases cs.len(),
{
    if cs.len() == 0 {
        Seq::empty()
    } else {
        request_events(cs.drop_last()) + command_events(cs.last())
    }
}

fn push_command_events<S, M>(events: &mut Vec<TcpEvent<S, M>>, c: TcpCommand<S, M>)
    ensures
        final(events)@ == old(events)@ + command_events(c),
{
    let ghost c0 = c;
    match c {
        TcpCommand::Close => events.push(TcpEvent::System(SystemRequestEvent::ExitApp)),
        TcpCommand::SpawnModel { model, placement } => {
            events.push(TcpEvent::Spawn { model, placement });
            events.push(TcpEvent::SpawnedModel);
        },
        TcpCommand::GetState => events.push(TcpEvent::System(SystemRequestEvent::GetState)),
        TcpCommand::PausePhysics => events.push(
            TcpEvent::System(SystemRequestEvent::PausePhysics),
        ),
        TcpCommand::RunPhysics => events.push(TcpEvent::System(SystemRequestEvent::StartPhysics)),
        TcpCommand::IsAlive => events.push(TcpEvent::System(SystemRequestEvent::IsAlive)),
        TcpCommand::ApplyMotorCommand { body_name, command } => events.push(
            TcpEvent::System(SystemRequestEvent::ApplyMotorCommand { body_name, command }),
        ),
        TcpCommand::Despawn { name } => events.push(
            TcpEvent::System(SystemRequestEvent::Despawn { name }),
        ),
        TcpCommand::Restart => {},
        TcpCommand::NoCommand => {},
    }
    assert(events@ == old(events)@ + command_events(c0));
}

impl<S, M> HttpRequest<S, M> {
    /// Turns the commands of a request into the events they raise, in order:
    /// `Close` asks the app to exit, `SpawnModel` asks for the model and
    /// answers that it was spawned, `GetState`, `PausePhysics`, `RunPhysics`,
    /// `IsAlive`, `ApplyMotorCommand` and `Despawn` are passed on to the
    /// simulator, and `Restart` and `None` raise nothing.
    pub fn into_events(self) -> (r: Vec<TcpEvent<S, M>>)
        ensures
            r@ == request_events(self.actions@),
    {
        let mut actions = self.actions;
        let ghost all = actions@;
        let mut events: Vec<TcpEvent<S, M>> = Vec::new();
        let mut k: usize = 0;
        assert(all.len() == actions.len());
        assert(all.take(0) == Seq::<TcpCommand<S, M>>::empty());
        while actions.len() > 0
            invariant
                k + actions@.len() == all.len(),
                all.len() <= usize::MAX,
                actions@ == all.skip(k as int),
                events@ == request_events(all.take(k as int)),
            decreases actions.len(),
        {
            let c = actions.remove(0);
            proof {
                assert(c == all[k as int]);
                assert(all.take(k + 1).drop_last() == all.take(k as int));
                assert(all.take(k + 1).last() == all[k as int]);
            }
            push_command_events(&mut events, c);
            k = k + 1;
            assert(actions@ == all.skip(k as int));
        }
        assert(all.take(k as int) == all);
        events
    }
}

// ----------------------------------------------------------------------
// Connection state
// ----------------------------------------------------------------------

/// Whether a client is connected to the TCP server.
#[derive(Debug, Clone, Copy, PartialEq, Eq, Hash, Structural)]
pub enum TcpConnectionState {
    NotConnected,
    Connected,
}

/// What happened on the socket in one step of the server.
#[derive(Debug, Clone, Copy, PartialEq, Eq, Hash, Structural)]
pub enum SocketOutcome {
    /// A client connection was accepted.
    Accepted,
    /// Waiting for a connection failed.
    AcceptFailed,
    /// A read returned this many bytes.
    Read(usize),
    /// Reading the stream failed.
    ReadFailed,
}

/// What the server does after a socket outcome.
#[derive(Debug, Clone, Copy, PartialEq, Eq, Hash, Structural)]
pub struct ServerStep {
    /// The connection state from now on.
    pub state: TcpConnectionState,
    /// Whether a message of this many bytes is to be handled now.
    pub message: Option<usize>,
    /// Whether the server keeps reading before the frame goes on.
    pub keep_reading: bool,
}

/// One step of the TCP server: an accepted connection makes it connected,
/// a failed read makes it not connected; an empty read is skipped and the
/// server reads again, and a read of some bytes hands them on to be handled.
pub fn server_step(state: TcpConnectionState, outcome: SocketOutcome) -> (r: ServerStep)
    ensures
        r.state == (match outcome {
            SocketOutcome::Accepted => TcpConnectionState::Connected,
            SocketOutcome::ReadFailed => TcpConnectionState::NotConnected,
            _ => state,
        }),
        r.message == (match outcome {
            SocketOutcome::Read(len) => if len > 0 { Some(len) } else { None },
            _ => None,
        }),
        r.keep_reading == (match outcome {
            SocketOutcome::Read(len) => len == 0,
            SocketOutcome::ReadFailed => true,
            _ => false,
        }),
{
    match outcome {
        SocketOutcome::Accepted => ServerStep {
            state: TcpConnectionState::Connected,
            message: None,
            keep_reading: false,
        },
        SocketOutcome::AcceptFailed => ServerStep { state, message: None, keep_reading: false },
        SocketOutcome::Read(len) => {
            if len == 0 {
                ServerStep { state, message: None, keep_reading: true }
            } else {
                ServerStep { state, message: Some(len), keep_reading: false }
            }
        },
        SocketOutcome::ReadFailed => ServerStep {
            state: TcpConnectionState::NotConnected,
            message: None,
            keep_reading: true,
        },
    }
}

// ----------------------------------------------------------------------
// Requests by name
// ----------------------------------------------------------------------

/// The entity of the first of `bodies` (name, entity) named `name`.
pub open spec fn first_named(bodies: Seq<(String, u64)>, name: Seq<char>) -> Option<u64>
    decreases bodies.len(),
{
    if bodies.len() == 0 {
        None
    } else if bodies[0].0@ == name {
        Some(bodies[0].1)
    } else {
        first_named(bodies.drop_first(), name)
    }
}

/// Finds the body that a request names: the first of `bodies` (name,
/// entity) with that name.
pub fn body_named(bodies: &Vec<(String, u64)>, name: &str) -> (r: Option<u64>)
    ensures
        r == first_named(bodies@, name@),
{
    let key = name.to_owned();
    let mut i: usize = 0;
    assert(bodies@.skip(0) =~= bodies@);
    while i < bodies.len()
        invariant
            key@ == name@,
            i <= bodies@.len(),
            first_named(bodies@, name@) == first_named(bodies@.skip(i as int), name@),
        decreases bodies.len() - i,
    {
        assert(bodies@.skip(i as int)[0] == bodies@[i as int]);
        if bodies[i].0 == key {
            return Some(bodies[i].1);
        }
        assert(bodies@.skip(i as int + 1) =~= bodies@.skip(i as int).drop_first());
        i = i + 1;
    }
    None
}

/// A motor command by joint name as targets by joint entity: each named
/// joint that the link map holds, in the order of the command; names the
/// map does not hold are left out.
pub open spec fn targets_by_entity<V>(joints: Map<Seq<char>, u64>, command: Seq<(String, V)>) -> Seq<(u64, V)>
    decreases command.len(),
{
    if command.len() == 0 {
        Seq::empty()
    } else {
        let rest = targets_by_entity(joints, command.drop_last());
        let last = command.last();
        if joints.dom().contains(last.0@) {
            rest.push((joints[last.0@], last.1))
        } else {
            rest
        }
    }
}

/// Turns a motor command by joint name into targets by joint entity,
/// through the link map of the multibody it is for.
pub fn joint_targets<V>(joints: &ChildMap, command: Vec<(String, V)>) -> (r: Vec<(u64, V)>)
    ensures
        r@ == targets_by_entity(joints@, command@),
{
    let ghost all = command@;
    let mut command = command;
    let mut r: Vec<(u64, V)> = Vec::new();
    let mut k: usize = 0;
    assert(all.len() == command.len());
    assert(all.take(0) == Seq::<(String, V)>::empty());
    while command.len() > 0
        invariant
            k + command@.len() == all.len(),
            all.len() <= usize::MAX,
            command@ == all.skip(k as int),
            r@ == targets_by_entity(joints@, all.take(k as int)),
        decreases command.len(),
    {
        let (name, v) = command.remove(0);
        proof {
            assert(all[k as int] == (name, v));
            assert(all.take(k + 1).drop_last() == all.take(k as int));
            assert(all.take(k + 1).last() == all[k as int]);
        }
        if let Some(e) = joints.get(name.as_str()) {
            r.push((e, v));
        }
        k = k + 1;
        assert(command@ == all.skip(k as int));
    }
    assert(all.take(k as int) == all);
    r
}

// ----------------------------------------------------------------------
// The HTTP response
// ----------------------------------------------------------------------

/// The HTTP response that carries the JSON text `json`: status 200, the
/// length of the body in bytes (`str::len`), the JSON content type, then the body.
pub open spec fn http_response_spec(json: &str) -> Seq<char> {
    "HTTP/1.1 200 OK\r\nContent-Length: "@ + decimal(json.len() as nat) + "\r\nContent-Type: application/json\r\n\r\n"@
        + json@
}

/// Frames the JSON text of the responses as an HTTP response.
pub fn http_response(json: &str) -> (r: String)
    ensures
        r@ == http_response_spec(json),
{
    let mut r = "HTTP/1.1 200 OK\r\nContent-Length: ".to_owned();
    let len = json.len();
    let digits = decimal_string(len as u64);
    r.append(digits.as_str());
    r.append("\r\nContent-Type: application/json\r\n\r\n");
    r.append(json);
    r
}


/// The response is the status line and the Content-Length header, a run
/// of decimal digits that spells the full byte length of the body (for
/// every length), the content type and the blank line, then the body itself.
pub proof fn lemma_http_content_length(json: &str)
    ensures
        ({
            let r = http_response_spec(json);
            let head = "HTTP/1.1 200 OK\r\nContent-Length: "@;
            let tail = "\r\nContent-Type: application/json\r\n\r\n"@;
            let n = r.len() - head.len() - tail.len() - json@.len();
            &&& n >= 1
            &&& r.take(head.len() as int) == head
            &&& r.subrange(head.len() + n, head.len() + n + tail.len()) == tail
            &&& r.skip(head.len() + n + tail.len()) == json@
            &&& forall|i: int| head.len() <= i < head.len() + n ==> is_digit_char(#[trigger] r[i])
            &&& digits_value(r.subrange(head.len() as int, head.len() + n)) == json.len()
        }),
{
    let r = http_response_spec(json);
    let head = "HTTP/1.1 200 OK\r\nContent-Length: "@;
    let tail = "\r\nContent-Type: application/json\r\n\r\n"@;
    let d = decimal(json.len() as nat);
    lemma_decimal_value(json.len() as nat);
    lemma_decimal_digits(json.len() as nat);
    assert(r == head + d + tail + json@);
    let n = r.len() - head.len() - tail.len() - json@.len();
    assert(n == d.len());
    assert(r.take(head.len() as int) =~= head);
    assert(r.subrange(head.len() as int, head.len() + n) =~= d);
    assert(r.subrange(head.len() + n, head.len() + n + tail.len()) =~= tail);
    assert(r.skip(head.len() + n + tail.len()) =~= json@);
    assert forall|i: int| head.len() <= i < head.len() + n implies is_digit_char(#[trigger] r[i]) by {
        assert(r[i] == d[i - head.len()]);
    }
}

/// The answers of a frame in the order they are sent: the physics events,
/// then the collision events, then the simulator's answers; `None` when
/// there is nothing to send, in which case no response is written.
pub fn gather_responses<T>(physic: Vec<T>, collision: Vec<T>, system: Vec<T>) -> (r: Option<Vec<T>>)
    ensures
        match r {
            None => physic@.len() == 0 && collision@.len() == 0 && system@.len() == 0,
            Some(all) => all@ == physic@ + collision@ + system@ && all@.len() > 0,
        },
{
    let mut all = physic;
    let mut collision = collision;
    let mut system = system;
    all.append(&mut collision);
    all.append(&mut system);
    if all.len() == 0 {
        None
    } else {
        Some(all)
    }
}

} // verus!
