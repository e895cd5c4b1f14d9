//! What a supervisor and its child tell each other over the pipes between them:
//! the supervisor one byte, the child messages of five bytes, a kind and a
//! little-endian number.

use vstd::prelude::*;

verus! {

/// The byte with which the supervisor lets the child go on.
pub const GO_ON: u8 = 0;

/// A message of the child.
#[derive(Clone, Copy, PartialEq, Eq, Structural, Debug)]
pub enum Report {
    /// The process that serves the Wine prefix, by its number in the namespace.
    FuseStarted(u32),
    /// The program could not be started, with the error number.
    ExecFailed(i32),
}

/// The number that four bytes give, the lowest first.
pub open spec fn le_value(b: Seq<u8>) -> nat {
    (b[0] + 0x100 * b[1] + 0x1_0000 * b[2] + 0x100_0000 * b[3]) as nat
}

/// The four bytes of a number, the lowest first.
pub open spec fn le_bytes(n: nat) -> Seq<u8> {
    seq![
        (n % 0x100) as u8,
        (n / 0x100 % 0x100) as u8,
        (n / 0x1_0000 % 0x100) as u8,
        (n / 0x100_0000 % 0x100) as u8,
    ]
}

/// A signed number as the unsigned one with the same bits.
pub open spec fn unsigned(x: int) -> nat {
    if x < 0 {
        (x + 0x1_0000_0000) as nat
    } else {
        x as nat
    }
}

/// The bytes of a message.
pub open spec fn encoded(r: Report) -> Seq<u8> {
    match r {
        Report::FuseStarted(pid) => seq![1u8] + le_bytes(pid as nat),
        Report::ExecFailed(code) => seq![2u8] + le_bytes(unsigned(code as int)),
    }
}

/// The message of a kind with four bytes of data; other kinds mean nothing.
pub open spec fn decoded(kind: u8, data: Seq<u8>) -> Option<Report> {
    if kind == 1 {
        Some(Report::FuseStarted(le_value(data) as u32))
    } else if kind == 2 {
        Some(
            Report::ExecFailed(
                if le_value(data) >= 0x8000_0000 {
                    (le_value(data) - 0x1_0000_0000) as i32
                } else {
                    le_value(data) as i32
                },
            ),
        )
    } else {
        None
    }
}

/// Writes a message.
pub fn encode(r: Report) -> (b: Vec<u8>)
    ensures
        b@ == encoded(r),
{
    let (kind, n): (u8, u32) = match r {
        Report::FuseStarted(pid) => (1, pid),
        Report::ExecFailed(code) => if code < 0 {
            (2, (code as i64 + 0x1_0000_0000) as u32)
        } else {
            (2, code as u32)
        },
    };
    let b = vec![
        kind,
        (n % 0x100) as u8,
        (n / 0x100 % 0x100) as u8,
        (n / 0x1_0000 % 0x100) as u8,
        (n / 0x100_0000 % 0x100) as u8,
    ];
    assert(b@ =~= seq![kind] + le_bytes(n as nat));
    b
}

/// Reads a message.
pub fn decode(kind: u8, data: &Vec<u8>) -> (r: Option<Report>)
    requires
        data@.len() == 4,
    ensures
        r == decoded(kind, data@),
{
    let n: u32 = data[0] as u32 + 0x100 * data[1] as u32 + 0x1_0000 * data[2] as u32 + 0x100_0000
        * data[3] as u32;
    if kind == 1 {
        Some(Report::FuseStarted(n))
    } else if kind == 2 {
        if n >= 0x8000_0000 {
            Some(Report::ExecFailed((n as i64 - 0x1_0000_0000) as i32))
        } else {
            Some(Report::ExecFailed(n as i32))
        }
    } else {
        None
    }
}

/// The supervisor reads the message that the child wrote.
pub proof fn law_report_arrives(r: Report)
    ensures
        encoded(r).len() == 5,
        decoded(encoded(r)[0], encoded(r).skip(1)) == Some(r),
{
    let n = match r {
        Report::FuseStarted(pid) => pid as nat,
        Report::ExecFailed(code) => unsigned(code as int),
    };
    assert(encoded(r).skip(1) =~= le_bytes(n));
    assert(le_value(le_bytes(n)) == n);
}

/// What a stream of bytes tells, where a message that is cut short or of another
/// kind tells nothing.
pub open spec fn reports_in(stream: Seq<u8>) -> Seq<Report>
    decreases stream.len(),
{
    if stream.len() < 5 {
        seq![]
    } else {
        let rest = reports_in(stream.skip(5));
        match decoded(stream[0], stream.subrange(1, 5)) {
            Some(r) => seq![r] + rest,
            None => rest,
        }
    }
}

/// The bytes of several messages, one behind the other.
pub open spec fn stream_of(reports: Seq<Report>) -> Seq<u8>
    decreases reports.len(),
{
    if reports.len() == 0 {
        seq![]
    } else {
        encoded(reports[0]) + stream_of(reports.drop_first())
    }
}

/// The supervisor reads all messages that the child wrote, in order, though the
/// last bytes of the pipe are a message cut short.
pub proof fn law_stream_arrives(reports: Seq<Report>, cut: Seq<u8>)
    requires
        cut.len() < 5,
    ensures
        reports_in(stream_of(reports) + cut) == reports,
    decreases reports.len(),
{
    let s = stream_of(reports) + cut;
    if reports.len() == 0 {
        assert(s =~= cut);
        assert(reports_in(s) =~= reports);
    } else {
        let head = encoded(reports[0]);
        let rest = reports.drop_first();
        law_report_arrives(reports[0]);
        law_stream_arrives(rest, cut);
        assert(s.skip(5) =~= stream_of(rest) + cut);
        assert(s.subrange(1, 5) =~= head.skip(1));
        assert(s[0] == head[0]);
        assert(seq![reports[0]] + rest =~= reports);
    }
}

/// What the supervisor knows from its child.
#[derive(Clone, Copy, PartialEq, Eq, Structural, Debug)]
pub struct Monitor {
    pub fuse_pid: Option<u32>,
    pub exec_failed: bool,
}

/// What is known behind a message.
pub open spec fn informed(m: Monitor, r: Option<Report>) -> Monitor {
    match r {
        Some(Report::FuseStarted(pid)) => Monitor { fuse_pid: Some(pid), ..m },
        Some(Report::ExecFailed(_)) => Monitor { exec_failed: true, ..m },
        None => m,
    }
}

/// What is known at first.
pub open spec fn uninformed() -> Monitor {
    Monitor { fuse_pid: None, exec_failed: false }
}

impl Monitor {
    pub fn new() -> (m: Monitor)
        ensures
            m == uninformed(),
    {
        Monitor { fuse_pid: None, exec_failed: false }
    }

    /// Takes note of a message.
    pub fn receive(&mut self, kind: u8, data: &Vec<u8>) -> (r: Option<Report>)
        requires
            data@.len() == 4,
        ensures
            r == decoded(kind, data@),
            *final(self) == informed(*old(self), r),
    {
        let r = decode(kind, data);
        match r {
            Some(Report::FuseStarted(pid)) => {
                self.fuse_pid = Some(pid);
            },
            Some(Report::ExecFailed(_)) => {
                self.exec_failed = true;
            },
            None => {},
        }
        r
    }
}

/// What is known behind several messages.
pub open spec fn informed_by(m: Monitor, reports: Seq<Report>) -> Monitor
    decreases reports.len(),
{
    if reports.len() == 0 {
        m
    } else {
        informed(informed_by(m, reports.drop_last()), Some(reports.last()))
    }
}

/// The supervisor knows that the program could not be started if and only if the
/// child said so, and it knows the process that the child named last.
pub proof fn law_monitor_knows_what_was_said(reports: Seq<Report>)
    ensures
        informed_by(uninformed(), reports).exec_failed <==> exists|k: int|
            0 <= k < reports.len() && #[trigger] reports[k] is ExecFailed,
        informed_by(uninformed(), reports).fuse_pid is None <==> forall|k: int|
            0 <= k < reports.len() ==> !(#[trigger] reports[k] is FuseStarted),
        forall|k: int|
            0 <= k < reports.len() && reports[k] is FuseStarted && (forall|j: int|
                k < j < reports.len() ==> !(#[trigger] reports[j] is FuseStarted))
                ==> informed_by(uninformed(), reports).fuse_pid == Some(
                (#[trigger] reports[k])->FuseStarted_0,
            ),
    decreases reports.len(),
{
    if reports.len() > 0 {
        let rest = reports.drop_last();
        let n = reports.len() - 1;
        law_monitor_knows_what_was_said(rest);
        assert(forall|k: int| 0 <= k < n ==> rest[k] == reports[k]);
        assert(reports[n] == reports.last());
        let m = informed_by(uninformed(), reports);
        let before = informed_by(uninformed(), rest);
        if before.exec_failed {
            let k = choose|k: int| 0 <= k < rest.len() && #[trigger] rest[k] is ExecFailed;
            assert(reports[k] is ExecFailed);
        }
        if before.fuse_pid is Some {
            let k = choose|k: int| 0 <= k < rest.len() && #[trigger] rest[k] is FuseStarted;
            assert(reports[k] is FuseStarted);
        }
        assert forall|k: int|
            0 <= k < reports.len() && reports[k] is FuseStarted && (forall|j: int|
                k < j < reports.len() ==> !(#[trigger] reports[j] is FuseStarted)) implies m.fuse_pid
            == Some((#[trigger] reports[k])->FuseStarted_0) by {
            if k < n {
                assert(!(reports[n] is FuseStarted));
                assert(rest[k] == reports[k]);
                assert forall|j: int| k < j < rest.len() implies !(
                #[trigger] rest[j] is FuseStarted) by {
                    assert(rest[j] == reports[j]);
                }
            }
        }
    }
}

/// What is known when a stream has been read, message by message.
pub open spec fn watched(m: Monitor, stream: Seq<u8>) -> Monitor
    decreases stream.len(),
{
    if stream.len() < 5 {
        m
    } else {
        watched(informed(m, decoded(stream[0], stream.subrange(1, 5))), stream.skip(5))
    }
}

proof fn lemma_informed_in_front(m: Monitor, r: Report, rest: Seq<Report>)
    ensures
        informed_by(m, seq![r] + rest) == informed_by(informed(m, Some(r)), rest),
    decreases rest.len(),
{
    let whole = seq![r] + rest;
    if rest.len() == 0 {
        assert(whole.drop_last() =~= seq![]);
        assert(informed_by(m, whole.drop_last()) == m);
    } else {
        assert(whole.drop_last() =~= seq![r] + rest.drop_last());
        lemma_informed_in_front(m, r, rest.drop_last());
    }
}

proof fn lemma_watched(m: Monitor, stream: Seq<u8>)
    ensures
        watched(m, stream) == informed_by(m, reports_in(stream)),
    decreases stream.len(),
{
    if stream.len() >= 5 {
        let r = decoded(stream[0], stream.subrange(1, 5));
        lemma_watched(informed(m, r), stream.skip(5));
        if let Some(said) = r {
            lemma_informed_in_front(m, said, reports_in(stream.skip(5)));
        }
    }
}

/// A supervisor that reads the pipe to its end, though the last bytes are a
/// message cut short, knows just what the messages of the child say.
pub proof fn law_supervisor_hears_the_child(reports: Seq<Report>, cut: Seq<u8>)
    requires
        cut.len() < 5,
    ensures
        watched(uninformed(), stream_of(reports) + cut) == informed_by(uninformed(), reports),
{
    law_stream_arrives(reports, cut);
    lemma_watched(uninformed(), stream_of(reports) + cut);
}

proof fn lemma_watched_in_two(m: Monitor, a: Seq<u8>, b: Seq<u8>)
    requires
        a.len() % 5 == 0,
    ensures
        watched(m, a + b) == watched(watched(m, a), b),
    decreases a.len(),
{
    let whole = a + b;
    if a.len() == 0 {
        assert(whole =~= b);
    } else {
        assert(whole.subrange(1, 5) =~= a.subrange(1, 5));
        assert(whole.skip(5) =~= a.skip(5) + b);
        lemma_watched_in_two(informed(m, decoded(a[0], a.subrange(1, 5))), a.skip(5), b);
    }
}

/// A reader of the pipe: what it knows, and the bytes of a message that is not
/// complete.
pub struct Listener {
    pub monitor: Monitor,
    pub pending: Vec<u8>,
}

impl Listener {
    /// Whether no complete message is left unread.
    pub open spec fn wf(self) -> bool {
        self.pending@.len() < 5
    }

    /// A reader that knows something already.
    pub fn new(m: Monitor) -> (r: Listener)
        ensures
            r.wf(),
            r.monitor == m,
            r.pending@.len() == 0,
    {
        Listener { monitor: m, pending: Vec::new() }
    }

    /// Takes the next byte of the pipe, and gives the message that it completes, if
    /// it completes one that means something.
    pub fn feed(&mut self, byte: u8) -> (r: Option<Report>)
        requires
            old(self).wf(),
        ensures
            final(self).wf(),
            ({
                let bytes = old(self).pending@.push(byte);
                &&& final(self).monitor == watched(old(self).monitor, bytes)
                &&& bytes.len() < 5 ==> r is None && final(self).pending@ == bytes
                &&& bytes.len() == 5 ==> r == decoded(bytes[0], bytes.subrange(1, 5))
                &&& bytes.len() == 5 ==> final(self).pending@.len() == 0
            }),
    {
        if self.pending.len() < 4 {
            self.pending.push(byte);
            return None;
        }
        let ghost bytes = self.pending@.push(byte);
        let kind = self.pending[0];
        let data = vec![self.pending[1], self.pending[2], self.pending[3], byte];
        assert(data@ =~= bytes.subrange(1, 5));
        proof {
            let known = informed(self.monitor, decoded(kind, data@));
            assert(bytes.skip(5).len() == 0);
            assert(watched(known, bytes.skip(5)) == known);
        }
        let r = self.monitor.receive(kind, &data);
        self.pending = Vec::new();
        r
    }
}

/// Reads a stream to its end.
pub fn watch(m: Monitor, stream: &Vec<u8>) -> (r: Monitor)
    ensures
        r == watched(m, stream@),
{
    let mut listener = Listener::new(m);
    let mut i: usize = 0;
    assert(stream@.take(0) =~= seq![]);
    while i < stream.len()
        invariant
            i <= stream@.len(),
            listener.wf(),
            listener.pending@ == stream@.subrange(i - i % 5, i as int),
            listener.monitor == watched(m, stream@.take(i as int)),
        decreases stream@.len() - i,
    {
        let ghost j = i - i % 5;
        let ghost pending = stream@.subrange(j, i as int);
        proof {
            let head = stream@.take(j);
            assert(stream@.take(i as int) =~= head + pending);
            assert(stream@.take(i + 1) =~= head + pending.push(stream@[i as int]));
            lemma_watched_in_two(m, head, pending);
            lemma_watched_in_two(m, head, pending.push(stream@[i as int]));
            assert(watched(watched(m, head), pending) == watched(m, head));
        }
        listener.feed(stream[i]);
        proof {
            if pending.len() == 4 {
                assert((i + 1) % 5 == 0);
                assert(listener.pending@ =~= stream@.subrange(i + 1, i + 1));
            } else {
                assert((i + 1) - (i + 1) % 5 == j);
                assert(listener.pending@ =~= stream@.subrange(j, i + 1));
            }
        }
        i = i + 1;
    }
    assert(stream@.take(i as int) =~= stream@);
    listener.monitor
}

/// How a message is sent: its kind, then its number in four bytes, the lowest
/// first, a negative one as what is left of it when a whole turn is added.
pub proof fn law_how_a_message_is_sent(pid: u32, code: i32)
    ensures
        ({
            let f = encoded(Report::FuseStarted(pid));
            &&& f.len() == 5
            &&& f[0] == 1
            &&& f[1] + 256 * f[2] + 65536 * f[3] + 16777216 * f[4] == pid
        }),
        ({
            let e = encoded(Report::ExecFailed(code));
            &&& e.len() == 5
            &&& e[0] == 2
            &&& e[1] + 256 * e[2] + 65536 * e[3] + 16777216 * e[4] == if code < 0 {
                code + 4294967296
            } else {
                code as int
            }
        }),
{
}

/// What a message tells by its kind and its four bytes; one of another kind tells
/// nothing.
pub proof fn law_what_a_message_tells(kind: u8, data: Seq<u8>)
    requires
        data.len() == 4,
    ensures
        ({
            let n = data[0] + 256 * data[1] + 65536 * data[2] + 16777216 * data[3];
            match decoded(kind, data) {
                Some(Report::FuseStarted(pid)) => kind == 1 && pid == n,
                Some(Report::ExecFailed(code)) => kind == 2 && (code == n || code == n
                    - 4294967296),
                None => kind != 1 && kind != 2,
            }
        }),
{
}

}
