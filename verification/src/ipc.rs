//! Hyprland's request socket: `[flags]/command args`, with the reply ending
//! when the compositor closes the connection. Each request uses a new socket.
//! Times are in microseconds of a steady clock.

use vstd::prelude::*;

use crate::strings;
use crate::text;

verus! {

/// How long a request may take.
pub const IO_TIMEOUT: u64 = 5_000_000;

/// All requests allowed once shutdown starts, and again for recovery. The
/// process is killed ten seconds after it is asked to stop; joining the
/// capture and removing the extended display have to finish first.
pub const TEARDOWN_BUDGET: u64 = 6_000_000;

/// The longest reply that is read.
pub const MAX_REPLY_BYTES: usize = 16_777_216;

#[derive(Debug, PartialEq, Eq)]
pub enum Error {
    NoSession,
    InvalidSession,
    RelativeRuntime,
    BudgetSpent,
    TimedOut,
    ClosedWhileWriting,
    ReplyTooLong,
    NotUtf8,
    EmptyReply,
    /// The compositor reports an error.
    Reported(String),
    /// The compositor did not accept a command.
    Refused {
        command: String,
        reply: String,
    },
}

impl Error {
    pub open spec fn text(self) -> Seq<char> {
        match self {
            Error::NoSession =>
                "HYPRLAND_INSTANCE_SIGNATURE is not set; run OmaBeam inside your Hyprland session"@,
            Error::InvalidSession => "invalid HYPRLAND_INSTANCE_SIGNATURE"@,
            Error::RelativeRuntime => "XDG_RUNTIME_DIR must be an absolute path"@,
            Error::BudgetSpent => "cleanup time limit reached"@,
            Error::TimedOut => "Hyprland IPC request timed out"@,
            Error::ClosedWhileWriting => "Hyprland IPC closed while writing request"@,
            Error::ReplyTooLong => "Hyprland IPC reply exceeds 16777216 bytes"@,
            Error::NotUtf8 => "Hyprland IPC reply is not UTF-8"@,
            Error::EmptyReply => "Hyprland IPC returned an empty reply"@,
            Error::Reported(reply) => reply@,
            Error::Refused { command, reply } => "Hyprland "@ + command@ + " failed: "@ + reply@,
        }
    }

    pub fn message(&self) -> (r: String)
        ensures
            r@ == self.text(),
    {
        match self {
            Error::NoSession =>
                "HYPRLAND_INSTANCE_SIGNATURE is not set; run OmaBeam inside your Hyprland session".to_owned(),
            Error::InvalidSession => "invalid HYPRLAND_INSTANCE_SIGNATURE".to_owned(),
            Error::RelativeRuntime => "XDG_RUNTIME_DIR must be an absolute path".to_owned(),
            Error::BudgetSpent => "cleanup time limit reached".to_owned(),
            Error::TimedOut => "Hyprland IPC request timed out".to_owned(),
            Error::ClosedWhileWriting => "Hyprland IPC closed while writing request".to_owned(),
            Error::ReplyTooLong => "Hyprland IPC reply exceeds 16777216 bytes".to_owned(),
            Error::NotUtf8 => "Hyprland IPC reply is not UTF-8".to_owned(),
            Error::EmptyReply => "Hyprland IPC returned an empty reply".to_owned(),
            Error::Reported(reply) => reply.clone(),
            Error::Refused { command, reply } => {
                let mut message = "Hyprland ".to_owned();
                message.append(command.as_str());
                message.append(" failed: ");
                message.append(reply.as_str());
                message
            },
        }
    }
}

/// When everything has to be over, once that is known.
#[derive(Debug, Clone, Copy, PartialEq, Eq, Structural)]
pub struct Teardown {
    pub deadline: Option<u64>,
}

impl Teardown {
    pub fn new() -> (r: Self)
        ensures
            r.deadline is None,
    {
        Teardown { deadline: None }
    }

    /// Every later request ends within `budget` from now. Only the first call
    /// counts.
    pub fn arm(&mut self, now: u64, budget: u64)
        ensures
            final(self).deadline == match old(self).deadline {
                Some(deadline) => Some(deadline),
                None => if now + budget <= u64::MAX {
                    Some((now + budget) as u64)
                } else {
                    None
                },
            },
    {
        if self.deadline.is_none() {
            self.deadline = now.checked_add(budget);
        }
    }
}

/// A connection point, with a total budget for all of its requests.
#[derive(Debug)]
pub struct Ipc {
    pub path: Vec<u8>,
    pub deadline: Option<u64>,
}

/// What a deadline leaves of a timeout; nothing once it has passed.
pub open spec fn cut(timeout: int, deadline: Option<u64>, now: u64) -> Option<int> {
    match deadline {
        Some(deadline) => if deadline <= now {
            None
        } else if deadline - now < timeout {
            Some(deadline - now)
        } else {
            Some(timeout)
        },
        None => Some(timeout),
    }
}

/// What two deadlines leave of the usual timeout.
pub open spec fn allowed(own: Option<u64>, teardown: Option<u64>, now: u64) -> Option<int> {
    match cut(IO_TIMEOUT as int, own, now) {
        Some(timeout) => cut(timeout, teardown, now),
        None => None,
    }
}

fn cut_to(timeout: u64, deadline: Option<u64>, now: u64) -> (r: Result<u64, Error>)
    ensures
        match r {
            Ok(left) => cut(timeout as int, deadline, now) == Some(left as int),
            Err(error) => cut(timeout as int, deadline, now) is None && error
                == Error::BudgetSpent,
        },
{
    match deadline {
        Some(deadline) => {
            if deadline <= now {
                return Err(Error::BudgetSpent);
            }
            let left: u64 = deadline - now;
            if left < timeout {
                Ok(left)
            } else {
                Ok(timeout)
            }
        },
        None => Ok(timeout),
    }
}

/// The request for a value.
pub open spec fn query_text(command: Seq<char>) -> Seq<char> {
    "j/"@ + command
}

/// The request to do something.
pub open spec fn command_text(command: Seq<char>) -> Seq<char> {
    "/"@ + command
}

impl Ipc {
    /// The session's socket, without a budget of its own.
    pub fn from_env(signature: Option<&[u8]>, runtime: Option<&[u8]>, uid: u32) -> (r: Result<
        Self,
        Error,
    >)
        ensures
            match r {
                Ok(ipc) => path_of(signature, runtime, uid) == Ok::<Seq<u8>, Error>(ipc.path@)
                    && ipc.deadline is None,
                Err(error) => path_of(signature, runtime, uid) == Err::<Seq<u8>, Error>(error),
            },
    {
        match socket_path(signature, runtime, uid) {
            Ok(path) => Ok(Ipc { path, deadline: None }),
            Err(error) => Err(error),
        }
    }

    /// The socket of the session to recover, with one budget for all requests,
    /// so that a slow compositor cannot hold each of them up.
    pub fn for_instance(signature: &str, runtime: Option<&[u8]>, uid: u32, now: u64) -> (r: Result<
        Self,
        Error,
    >)
        ensures
            match r {
                Ok(ipc) => named_path(
                    vstd::utf8::encode_utf8(signature@),
                    runtime,
                    uid,
                ) == Ok::<Seq<u8>, Error>(ipc.path@) && ipc.deadline == (if now + TEARDOWN_BUDGET
                    <= u64::MAX {
                    Some((now + TEARDOWN_BUDGET) as u64)
                } else {
                    None
                }),
                Err(error) => named_path(
                    vstd::utf8::encode_utf8(signature@),
                    runtime,
                    uid,
                ) == Err::<Seq<u8>, Error>(error),
            },
    {
        match socket_path(Some(signature.as_bytes()), runtime, uid) {
            Ok(path) => Ok(Ipc { path, deadline: now.checked_add(TEARDOWN_BUDGET) }),
            Err(error) => Err(error),
        }
    }

    /// The usual timeout, cut to what is left of any budget. With nothing left
    /// a request fails before it connects.
    pub fn timeout(&self, teardown: Option<u64>, now: u64) -> (r: Result<u64, Error>)
        ensures
            match r {
                Ok(timeout) => allowed(self.deadline, teardown, now) == Some(timeout as int),
                Err(error) => allowed(self.deadline, teardown, now) is None && error
                    == Error::BudgetSpent,
            },
    {
        match cut_to(IO_TIMEOUT, self.deadline, now) {
            Ok(timeout) => cut_to(timeout, teardown, now),
            Err(error) => Err(error),
        }
    }

    /// The exchange for a query.
    pub fn query(&self, command: &str, teardown: Option<u64>, now: u64) -> (r: Result<
        Exchange,
        Error,
    >)
        requires
            now <= u64::MAX - IO_TIMEOUT,
        ensures
            self.starts(query_text(command@), teardown, now, r),
    {
        let mut line = "j/".to_owned();
        line.append(command);
        self.request(line.as_str(), teardown, now)
    }

    /// The exchange for a command; its reply is for `command_reply`.
    pub fn command(&self, command: &str, teardown: Option<u64>, now: u64) -> (r: Result<
        Exchange,
        Error,
    >)
        requires
            now <= u64::MAX - IO_TIMEOUT,
        ensures
            self.starts(command_text(command@), teardown, now, r),
    {
        let mut line = "/".to_owned();
        line.append(command);
        self.request(line.as_str(), teardown, now)
    }

    /// The exchange starts with all of the request to send, and has the time
    /// that the budgets leave.
    pub open spec fn starts(
        self,
        request: Seq<char>,
        teardown: Option<u64>,
        now: u64,
        r: Result<Exchange, Error>,
    ) -> bool {
        match r {
            Ok(exchange) => {
                &&& allowed(self.deadline, teardown, now) == Some(exchange.deadline - now)
                &&& exchange.request@ == vstd::utf8::encode_utf8(request)
                &&& exchange.sent == 0
                &&& exchange.reply@.len() == 0
            },
            Err(error) => allowed(self.deadline, teardown, now) is None && error
                == Error::BudgetSpent,
        }
    }

    /// The exchange for a request line.
    pub fn request(&self, request: &str, teardown: Option<u64>, now: u64) -> (r: Result<
        Exchange,
        Error,
    >)
        requires
            now <= u64::MAX - IO_TIMEOUT,
        ensures
            self.starts(request@, teardown, now, r),
    {
        match self.timeout(teardown, now) {
            Ok(timeout) => Ok(Exchange::new(request, now, timeout)),
            Err(error) => Err(error),
        }
    }
}

/// No request outlives a budget: what it is allowed ends by every deadline, and
/// after at most the usual timeout.
pub proof fn no_request_outlives_a_budget(own: Option<u64>, teardown: Option<u64>, now: u64)
    ensures
        allowed(own, teardown, now) matches Some(timeout) ==> {
            &&& 0 < timeout <= IO_TIMEOUT
            &&& own is Some ==> now + timeout <= own->0
            &&& teardown is Some ==> now + timeout <= teardown->0
        },
        allowed(None, None, now) == Some(IO_TIMEOUT as int),
{
}

/// The name is safe as one component of a path.
pub open spec fn valid_signature(signature: Seq<u8>) -> bool {
    &&& signature != seq![46u8]
    &&& signature != seq![46u8, 46u8]
    &&& forall|i: int|
        0 <= i < signature.len() ==> #[trigger] signature[i] != 47 && signature[i] != 0
}

/// The socket of a session with this name.
pub open spec fn named_path(signature: Seq<u8>, runtime: Option<&[u8]>, uid: u32) -> Result<
    Seq<u8>,
    Error,
> {
    let base = if runtime is Some && runtime->0@.len() > 0 {
        runtime->0@
    } else {
        vstd::utf8::encode_utf8("/run/user/"@ + text::decimal(uid as nat))
    };
    if signature.len() == 0 {
        Err(Error::NoSession)
    } else if !valid_signature(signature) {
        Err(Error::InvalidSession)
    } else if base[0] != 47 {
        Err(Error::RelativeRuntime)
    } else {
        Ok(
            base + (if base.last() == 47 {
                Seq::<u8>::empty()
            } else {
                seq![47u8]
            }) + vstd::utf8::encode_utf8("hypr/"@) + signature + vstd::utf8::encode_utf8(
                "/.socket.sock"@,
            ),
        )
    }
}

/// The socket of a session.
pub open spec fn path_of(signature: Option<&[u8]>, runtime: Option<&[u8]>, uid: u32) -> Result<
    Seq<u8>,
    Error,
> {
    match signature {
        Some(signature) => named_path(signature@, runtime, uid),
        None => Err(Error::NoSession),
    }
}

fn check_signature(signature: &[u8]) -> (r: bool)
    requires
        signature@.len() > 0,
    ensures
        r == valid_signature(signature@),
{
    let n: usize = signature.len();
    if n == 1 && signature[0] == 46 {
        assert(signature@ =~= seq![46u8]);
        return false;
    }
    if n == 2 && signature[0] == 46 && signature[1] == 46 {
        assert(signature@ =~= seq![46u8, 46u8]);
        return false;
    }
    assert(signature@ != seq![46u8]) by {
        if signature@ == seq![46u8] {
            assert(signature@[0] == 46);
        }
    }
    assert(signature@ != seq![46u8, 46u8]) by {
        if signature@ == seq![46u8, 46u8] {
            assert(signature@[0] == 46 && signature@[1] == 46);
        }
    }
    let mut i: usize = 0;
    while i < n
        invariant
            i <= n == signature@.len(),
            forall|k: int| 0 <= k < i ==> #[trigger] signature@[k] != 47 && signature@[k] != 0,
        decreases n - i,
    {
        if signature[i] == 47 || signature[i] == 0 {
            return false;
        }
        i = i + 1;
    }
    true
}

proof fn lemma_default_base(uid: u32)
    ensures
        vstd::utf8::encode_utf8("/run/user/"@ + text::decimal(uid as nat)).len() > 0,
        vstd::utf8::encode_utf8("/run/user/"@ + text::decimal(uid as nat))[0] == 47,
{
    reveal_strlit("/run/user/");
    let s = "/run/user/"@ + text::decimal(uid as nat);
    assert(s[0] == '/');
    let first = vstd::utf8::encode_scalar('/' as u32);
    assert(first =~= seq![47u8]) by {
        assert((0x2fu32 & 0x7F) as u8 == 47u8) by (bit_vector);
    }
    assert(vstd::utf8::encode_utf8(s) == first + vstd::utf8::encode_utf8(s.drop_first()));
}

/// Where the session's compositor listens. The runtime directory defaults to
/// the user's.
pub fn socket_path(signature: Option<&[u8]>, runtime: Option<&[u8]>, uid: u32) -> (r: Result<
    Vec<u8>,
    Error,
>)
    ensures
        match r {
            Ok(path) => path_of(signature, runtime, uid) == Ok::<Seq<u8>, Error>(path@),
            Err(error) => path_of(signature, runtime, uid) == Err::<Seq<u8>, Error>(error),
        },
{
    let name = match signature {
        Some(name) => name,
        None => {
            return Err(Error::NoSession);
        },
    };
    if name.len() == 0 {
        return Err(Error::NoSession);
    }
    if !check_signature(name) {
        return Err(Error::InvalidSession);
    }
    let mut path: Vec<u8> = Vec::new();
    let mut given = false;
    if let Some(runtime) = runtime {
        if runtime.len() > 0 {
            path.extend_from_slice(runtime);
            given = true;
        }
    }
    if !given {
        let mut default = "/run/user/".to_owned();
        text::push_decimal(&mut default, uid as u64);
        path.extend_from_slice(default.as_str().as_bytes());
        proof {
            lemma_default_base(uid);
        }
    }
    let ghost base = path@;
    assert(base =~= if given {
        runtime->0@
    } else {
        vstd::utf8::encode_utf8("/run/user/"@ + text::decimal(uid as nat))
    });
    if path[0] != 47 {
        return Err(Error::RelativeRuntime);
    }
    if path[path.len() - 1] != 47 {
        path.push(47);
    }
    path.extend_from_slice("hypr/".as_bytes());
    path.extend_from_slice(name);
    path.extend_from_slice("/.socket.sock".as_bytes());
    assert(path@ =~= base + (if base.last() == 47 {
        Seq::<u8>::empty()
    } else {
        seq![47u8]
    }) + vstd::utf8::encode_utf8("hypr/"@) + name@ + vstd::utf8::encode_utf8("/.socket.sock"@));
    Ok(path)
}

/// A request on its way, and the reply as far as it has come.
#[derive(Debug)]
pub struct Exchange {
    pub request: Vec<u8>,
    pub sent: usize,
    pub reply: Vec<u8>,
    pub deadline: u64,
}

/// What became of a reply.
pub open spec fn answer(bytes: Seq<u8>) -> Result<Seq<char>, Seq<char>> {
    let s = vstd::utf8::decode_utf8(bytes);
    if !vstd::utf8::valid_utf8(bytes) {
        Err("Hyprland IPC reply is not UTF-8"@)
    } else if strings::trimmed(s).len() == 0 {
        Err("Hyprland IPC returned an empty reply"@)
    } else if strings::starts(strings::trimmed_start(s), "error:"@) {
        Err(strings::trimmed(s))
    } else {
        Ok(s)
    }
}

impl Exchange {
    pub open spec fn wf(self) -> bool {
        self.sent <= self.request@.len() && self.reply@.len() <= MAX_REPLY_BYTES
    }

    pub fn new(request: &str, now: u64, timeout: u64) -> (r: Self)
        requires
            now + timeout <= u64::MAX,
        ensures
            r.wf(),
            r.request@ == vstd::utf8::encode_utf8(request@),
            r.sent == 0,
            r.reply@.len() == 0,
            r.deadline == now + timeout,
    {
        let mut bytes: Vec<u8> = Vec::new();
        bytes.extend_from_slice(request.as_bytes());
        Exchange { request: bytes, sent: 0, reply: Vec::new(), deadline: now + timeout }
    }

    /// How long the socket may still take.
    pub fn wait(&self, now: u64) -> (r: Result<u64, Error>)
        ensures
            match r {
                Ok(left) => now < self.deadline && left == self.deadline - now,
                Err(error) => now >= self.deadline && error == Error::TimedOut,
            },
    {
        if now >= self.deadline {
            Err(Error::TimedOut)
        } else {
            Ok(self.deadline - now)
        }
    }

    /// The request has been sent.
    pub fn is_sent(&self) -> (r: bool)
        requires
            self.wf(),
        ensures
            r == (self.sent == self.request@.len()),
    {
        self.sent == self.request.len()
    }

    /// The bytes that are still to be sent.
    pub fn pending(&self) -> (r: &[u8])
        requires
            self.wf(),
        ensures
            r@ == self.request@.skip(self.sent as int),
    {
        let r = vstd::slice::slice_subrange(
            self.request.as_slice(),
            self.sent,
            self.request.len(),
        );
        assert(r@ =~= self.request@.skip(self.sent as int));
        r
    }

    /// Some of the pending bytes were written.
    pub fn wrote(&mut self, count: usize) -> (r: Result<(), Error>)
        requires
            old(self).wf(),
            count <= old(self).request@.len() - old(self).sent,
        ensures
            final(self).wf(),
            final(self).request == old(self).request,
            final(self).reply == old(self).reply,
            final(self).deadline == old(self).deadline,
            final(self).sent == old(self).sent + count,
            r is Err <==> count == 0,
            r is Err ==> r->Err_0 == Error::ClosedWhileWriting,
    {
        if count == 0 {
            return Err(Error::ClosedWhileWriting);
        }
        assert(self.request.len() == self.request@.len());
        self.sent = self.sent + count;
        Ok(())
    }

    /// Some bytes of the reply were read. A short read is not its end.
    pub fn read(&mut self, bytes: &[u8]) -> (r: Result<(), Error>)
        requires
            old(self).wf(),
        ensures
            final(self).wf(),
            final(self).request == old(self).request,
            final(self).sent == old(self).sent,
            final(self).deadline == old(self).deadline,
            if old(self).reply@.len() + bytes@.len() <= MAX_REPLY_BYTES {
                r is Ok && final(self).reply@ == old(self).reply@ + bytes@
            } else {
                r == Err::<(), Error>(Error::ReplyTooLong) && final(self).reply@ == old(self).reply@
            },
    {
        if bytes.len() > MAX_REPLY_BYTES - self.reply.len() {
            return Err(Error::ReplyTooLong);
        }
        self.reply.extend_from_slice(bytes);
        Ok(())
    }

    /// The compositor closed the connection: the reply, which is all that was
    /// read.
    pub fn finish(self) -> (r: Result<String, Error>)
        ensures
            match r {
                Ok(reply) => answer(self.reply@) == Ok::<Seq<char>, Seq<char>>(reply@),
                Err(error) => answer(self.reply@) == Err::<Seq<char>, Seq<char>>(error.text()),
            },
    {
        match text::from_utf8(self.reply) {
            Some(reply) => {
                let trimmed = strings::trim(reply.as_str());
                if trimmed.as_str().is_empty() {
                    return Err(Error::EmptyReply);
                }
                let rest = strings::trim_start(reply.as_str());
                if strings::starts_with(rest.as_str(), "error:") {
                    return Err(Error::Reported(trimmed));
                }
                Ok(reply)
            },
            None => Err(Error::NotUtf8),
        }
    }
}

/// The compositor accepted a command if it answers `ok`.
pub fn command_reply(command: &str, reply: &str) -> (r: Result<(), Error>)
    ensures
        match r {
            Ok(()) => strings::trimmed(reply@) == "ok"@,
            Err(error) => strings::trimmed(reply@) != "ok"@ && error.text() == "Hyprland "@
                + command@ + " failed: "@ + strings::trimmed(reply@),
        },
{
    let trimmed = strings::trim(reply);
    if text::same(trimmed.as_str(), "ok") {
        Ok(())
    } else {
        Err(Error::Refused { command: command.to_owned(), reply: trimmed })
    }
}

/// Different sessions have different sockets.
pub proof fn sockets_tell_sessions_apart(
    a: Seq<u8>,
    b: Seq<u8>,
    runtime: Option<&[u8]>,
    uid: u32,
)
    requires
        named_path(a, runtime, uid) is Ok,
        named_path(b, runtime, uid) is Ok,
        named_path(a, runtime, uid) == named_path(b, runtime, uid),
    ensures
        a == b,
{
    let path = named_path(a, runtime, uid)->Ok_0;
    let base = if runtime is Some && runtime->0@.len() > 0 {
        runtime->0@
    } else {
        vstd::utf8::encode_utf8("/run/user/"@ + text::decimal(uid as nat))
    };
    let slash = if base.last() == 47 {
        Seq::<u8>::empty()
    } else {
        seq![47u8]
    };
    let front = base + slash + vstd::utf8::encode_utf8("hypr/"@);
    let end = vstd::utf8::encode_utf8("/.socket.sock"@);
    assert(path == front + a + end);
    assert(path == front + b + end);
    let n = front.len() as int;
    assert(path.subrange(n, path.len() - end.len()) =~= a);
    assert(path.subrange(n, path.len() - end.len()) =~= b);
}

} // verus!
