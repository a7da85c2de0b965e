//! The MCP supervisor's Unix-socket wire: length-prefixed frames
//! (`[4-byte LE length][JSON payload]`), and how the supervisor routes a
//! client's tool call and refreshes its tool table.
use vstd::prelude::*;

verus! {

/// The largest payload a frame may announce: 16 MiB.
pub const MAX_FRAME_BYTES: usize = 16777216;

/// The four little-endian bytes of `n`.
pub open spec fn le_bytes(n: u32) -> Seq<u8> {
    seq![(n % 256) as u8, ((n / 256) % 256) as u8, ((n / 65536) % 256) as u8, (n / 16777216) as u8]
}

/// The number four little-endian bytes spell.
pub open spec fn le_value(b: Seq<u8>) -> int {
    b[0] + b[1] * 256 + b[2] * 65536 + b[3] * 16777216
}

/// The frame that carries `payload`: its length in four little-endian
/// bytes, then the payload.
pub open spec fn frame_spec(payload: Seq<u8>) -> Seq<u8> {
    le_bytes(payload.len() as u32) + payload
}

/// Frames `payload` for the socket.
pub fn encode_frame(payload: &Vec<u8>) -> (r: Vec<u8>)
    requires
        payload@.len() <= u32::MAX,
    ensures
        r@ == frame_spec(payload@),
{
    let n = payload.len() as u32;
    let mut out: Vec<u8> = Vec::new();
    out.push((n % 256) as u8);
    out.push(((n / 256) % 256) as u8);
    out.push(((n / 65536) % 256) as u8);
    out.push((n / 16777216) as u8);
    let mut i: usize = 0;
    while i < payload.len()
        invariant
            i <= payload@.len(),
            n == payload@.len(),
            out@ == le_bytes(n) + payload@.take(i as int),
        decreases payload.len() - i,
    {
        out.push(payload[i]);
        assert(payload@.take(i + 1) =~= payload@.take(i as int).push(payload@[i as int]));
        assert(le_bytes(n) + payload@.take(i + 1) =~= (le_bytes(n) + payload@.take(i as int)).push(
            payload@[i as int],
        ));
        i += 1;
    }
    assert(payload@.take(payload@.len() as int) =~= payload@);
    out
}

/// Why a frame header was refused.
#[derive(Clone, Copy, Debug, PartialEq, Eq, Structural)]
pub enum FrameError {
    /// The announced payload is over `MAX_FRAME_BYTES`.
    TooLarge { len: u32 },
}

/// The payload length a frame header announces, when it is allowed.
pub fn frame_length(header: [u8; 4]) -> (r: Result<usize, FrameError>)
    ensures
        le_value(header@) <= MAX_FRAME_BYTES ==> r == Ok::<usize, FrameError>(le_value(header@) as usize),
        le_value(header@) > MAX_FRAME_BYTES ==> r == Err::<usize, FrameError>(
            FrameError::TooLarge { len: le_value(header@) as u32 },
        ),
{
    let n: u32 = (header[0] as u32) + (header[1] as u32) * 256 + (header[2] as u32) * 65536
        + (header[3] as u32) * 16777216;
    if n as usize > MAX_FRAME_BYTES {
        Err(FrameError::TooLarge { len: n })
    } else {
        Ok(n as usize)
    }
}

/// What the start of a received byte stream holds.
#[derive(Clone, Debug)]
pub enum FrameRead {
    /// Not a whole frame yet.
    Incomplete,
    /// A frame announcing more than `MAX_FRAME_BYTES`.
    TooLarge { len: u32 },
    /// A whole frame: its payload, and how many bytes it took.
    Frame { payload: Vec<u8>, used: usize },
}

/// Reads the first frame of `buf`.
pub fn read_frame(buf: &Vec<u8>) -> (r: FrameRead)
    ensures
        buf@.len() < 4 ==> r is Incomplete,
        buf@.len() >= 4 && le_value(buf@.take(4)) > MAX_FRAME_BYTES ==> (r matches FrameRead::TooLarge { len }
            && len == le_value(buf@.take(4))),
        buf@.len() >= 4 && le_value(buf@.take(4)) <= MAX_FRAME_BYTES ==> if buf@.len() < 4
            + le_value(buf@.take(4)) {
            r is Incomplete
        } else {
            (r matches FrameRead::Frame { payload, used } && used == 4 + le_value(buf@.take(4))
                && payload@ == buf@.subrange(4, used as int))
        },
{
    if buf.len() < 4 {
        return FrameRead::Incomplete;
    }
    let header = [buf[0], buf[1], buf[2], buf[3]];
    assert(header@ =~= buf@.take(4));
    match frame_length(header) {
        Err(FrameError::TooLarge { len }) => FrameRead::TooLarge { len },
        Ok(n) => {
            if buf.len() - 4 < n {
                FrameRead::Incomplete
            } else {
                let mut payload: Vec<u8> = Vec::new();
                let mut i: usize = 4;
                let end = 4 + n;
                while i < end
                    invariant
                        end == 4 + n,
                        4 <= i <= end <= buf@.len(),
                        payload@ == buf@.subrange(4, i as int),
                    decreases end - i,
                {
                    payload.push(buf[i]);
                    assert(buf@.subrange(4, i + 1) =~= buf@.subrange(4, i as int).push(
                        buf@[i as int],
                    ));
                    i += 1;
                }
                FrameRead::Frame { payload, used: 4 + n }
            }
        },
    }
}

proof fn lemma_le_roundtrip(n: u32)
    ensures
        le_value(le_bytes(n)) == n,
{
    let b = le_bytes(n);
    assert(b[0] == n % 256);
    assert(b[1] == (n / 256) % 256);
    assert(b[2] == (n / 65536) % 256);
    assert(b[3] == n / 16777216);
    assert(le_value(b) == n) by (nonlinear_arith)
        requires
            b[0] == n % 256,
            b[1] == (n / 256) % 256,
            b[2] == (n / 65536) % 256,
            b[3] == n / 16777216,
            n <= u32::MAX,
            le_value(b) == b[0] + b[1] * 256 + b[2] * 65536 + b[3] * 16777216,
    ;
}

/// Reading back a frame gives the payload that was framed, and the frame's
/// whole length is used: what `send` writes, `recv` returns.
pub proof fn lemma_frame_roundtrip(payload: Seq<u8>, rest: Seq<u8>)
    requires
        payload.len() <= MAX_FRAME_BYTES,
    ensures
        ({
            let buf = frame_spec(payload) + rest;
            &&& buf.len() >= 4
            &&& le_value(buf.take(4)) == payload.len()
            &&& buf.subrange(4, 4 + payload.len() as int) == payload
        }),
{
    let buf = frame_spec(payload) + rest;
    lemma_le_roundtrip(payload.len() as u32);
    assert(buf.take(4) =~= le_bytes(payload.len() as u32));
    assert(buf.subrange(4, 4 + payload.len() as int) =~= payload);
}

/// The server a call goes to: the one the client named, else the server of
/// the tool in `routing` (tool → server).
pub fn call_target(server_name: &str, tool_name: &str, routing: &ToolRouting) -> (r: Option<String>)
    ensures
        server_name@.len() > 0 ==> (r matches Some(s) && s@ == server_name@),
        server_name@.len() == 0 ==> match r {
            Some(s) => routing.routes().contains_key(tool_name@) && s@ == routing.routes()[tool_name@],
            None => !routing.routes().contains_key(tool_name@),
        },
{
    if !server_name.is_empty() {
        Some(server_name.to_owned())
    } else {
        routing.lookup(tool_name)
    }
}

/// The message of a call no server was found for.
pub fn no_server_message(tool_name: &str) -> (r: String)
    ensures
        r@ == "No server found for tool '"@ + tool_name@ + "'"@,
{
    let mut m = String::from_str("No server found for tool '");
    m.append(tool_name);
    m.append("'");
    m
}

/// The routes an entry list holds, tool → server.
pub open spec fn routes_of(entries: Seq<(String, String)>) -> Map<Seq<char>, Seq<char>> {
    Map::new(
        |t: Seq<char>| exists|i: int| 0 <= i < entries.len() && entries[i].0@ == t,
        |t: Seq<char>| entries[choose|i: int| 0 <= i < entries.len() && entries[i].0@ == t].1@,
    )
}

/// No tool appears twice in `entries`.
pub open spec fn unique_tools(entries: Seq<(String, String)>) -> bool {
    forall|i: int, j: int| 0 <= i < j < entries.len() ==> entries[i].0@ != entries[j].0@
}

/// In a list without repeated tools, the entry of a tool is the one at its index.
proof fn lemma_route_at(entries: Seq<(String, String)>, k: int)
    requires
        unique_tools(entries),
        0 <= k < entries.len(),
    ensures
        routes_of(entries).contains_key(entries[k].0@),
        routes_of(entries)[entries[k].0@] == entries[k].1@,
{
    let t = entries[k].0@;
    assert(exists|i: int| 0 <= i < entries.len() && entries[i].0@ == t);
    let j = choose|i: int| 0 <= i < entries.len() && entries[i].0@ == t;
    if j != k {
        if j < k {
            assert(entries[j].0@ != entries[k].0@);
        } else {
            assert(entries[k].0@ != entries[j].0@);
        }
    }
}

proof fn lemma_routes_replace(entries: Seq<(String, String)>, k: int, tool: String, server: String)
    requires
        unique_tools(entries),
        0 <= k < entries.len(),
        entries[k].0@ == tool@,
    ensures
        unique_tools(entries.update(k, (tool, server))),
        routes_of(entries.update(k, (tool, server))) == routes_of(entries).insert(tool@, server@),
{
    let e2 = entries.update(k, (tool, server));
    assert forall|a: int, b: int| 0 <= a < b < e2.len() implies e2[a].0@ != e2[b].0@ by {
        assert(entries[a].0@ != entries[b].0@);
    }
    assert forall|t: Seq<char>| #[trigger] routes_of(e2).contains_key(t) <==> routes_of(entries).insert(
        tool@,
        server@,
    ).contains_key(t) by {
        if routes_of(entries).contains_key(t) {
            let j = choose|j: int| 0 <= j < entries.len() && entries[j].0@ == t;
            assert(e2[j].0@ == t);
        }
        if routes_of(e2).contains_key(t) {
            let j = choose|j: int| 0 <= j < e2.len() && e2[j].0@ == t;
            assert(j == k || entries[j].0@ == t);
        }
        assert(e2[k].0@ == tool@);
    }
    assert forall|t: Seq<char>| #[trigger] routes_of(e2).contains_key(t) implies routes_of(e2)[t]
        == routes_of(entries).insert(tool@, server@)[t] by {
        let j = choose|j: int| 0 <= j < e2.len() && e2[j].0@ == t;
        lemma_route_at(e2, j);
        if j != k {
            lemma_route_at(entries, j);
        }
    }
    assert(routes_of(e2) =~= routes_of(entries).insert(tool@, server@));
}

proof fn lemma_routes_push(entries: Seq<(String, String)>, tool: String, server: String)
    requires
        unique_tools(entries),
        forall|k: int| 0 <= k < entries.len() ==> entries[k].0@ != tool@,
    ensures
        unique_tools(entries.push((tool, server))),
        routes_of(entries.push((tool, server))) == routes_of(entries).insert(tool@, server@),
{
    let e2 = entries.push((tool, server));
    let n = entries.len() as int;
    assert forall|a: int, b: int| 0 <= a < b < e2.len() implies e2[a].0@ != e2[b].0@ by {
        if b < n {
            assert(entries[a].0@ != entries[b].0@);
        }
    }
    assert forall|t: Seq<char>| #[trigger] routes_of(e2).contains_key(t) <==> routes_of(entries).insert(
        tool@,
        server@,
    ).contains_key(t) by {
        if routes_of(entries).contains_key(t) {
            let j = choose|j: int| 0 <= j < entries.len() && entries[j].0@ == t;
            assert(e2[j].0@ == t);
        }
        if routes_of(e2).contains_key(t) {
            let j = choose|j: int| 0 <= j < e2.len() && e2[j].0@ == t;
            assert(j == n || entries[j].0@ == t);
        }
        assert(e2[n].0@ == tool@);
    }
    assert forall|t: Seq<char>| #[trigger] routes_of(e2).contains_key(t) implies routes_of(e2)[t]
        == routes_of(entries).insert(tool@, server@)[t] by {
        let j = choose|j: int| 0 <= j < e2.len() && e2[j].0@ == t;
        lemma_route_at(e2, j);
        if j != n {
            lemma_route_at(entries, j);
        }
    }
    assert(routes_of(e2) =~= routes_of(entries).insert(tool@, server@));
}

/// Which server serves each tool; a later registration of a tool replaces
/// an earlier one.
pub struct ToolRouting {
    entries: Vec<(String, String)>,
}

impl ToolRouting {
    /// The routes, tool → server.
    pub closed spec fn routes(&self) -> Map<Seq<char>, Seq<char>> {
        routes_of(self.entries@)
    }

    /// No tool appears twice.
    #[verifier::type_invariant]
    closed spec fn wf(&self) -> bool {
        unique_tools(self.entries@)
    }

    /// An empty table.
    pub fn new() -> (r: Self)
        ensures
            r.routes() == Map::<Seq<char>, Seq<char>>::empty(),
    {
        let r = ToolRouting { entries: Vec::new() };
        assert(r.routes() =~= Map::<Seq<char>, Seq<char>>::empty());
        r
    }

    /// Routes `tool` to `server`, replacing an earlier route of `tool`.
    pub fn insert(&mut self, tool: String, server: String)
        ensures
            final(self).routes() == old(self).routes().insert(tool@, server@),
    {
        proof {
            use_type_invariant(&*self);
        }
        let mut entries: Vec<(String, String)> = Vec::new();
        std::mem::swap(&mut entries, &mut self.entries);
        let ghost before = entries@;
        let mut i: usize = 0;
        while i < entries.len()
            invariant
                i <= entries@.len(),
                entries@ == before,
                before == old(self).entries@,
                unique_tools(before),
                forall|k: int| 0 <= k < i ==> entries@[k].0@ != tool@,
            decreases entries.len() - i,
        {
            if entries[i].0 == tool {
                proof {
                    lemma_routes_replace(before, i as int, tool, server);
                }
                entries.set(i, (tool, server));
                self.entries = entries;
                return;
            }
            i += 1;
        }
        proof {
            lemma_routes_push(before, tool, server);
        }
        entries.push((tool, server));
        self.entries = entries;
    }

    /// The server of `tool`, if routed.
    pub fn lookup(&self, tool: &str) -> (r: Option<String>)
        ensures
            match r {
                Some(s) => self.routes().contains_key(tool@) && s@ == self.routes()[tool@],
                None => !self.routes().contains_key(tool@),
            },
    {
        proof {
            use_type_invariant(self);
        }
        let t = String::from_str(tool);
        let mut i: usize = 0;
        while i < self.entries.len()
            invariant
                i <= self.entries@.len(),
                unique_tools(self.entries@),
                t@ == tool@,
                forall|k: int| 0 <= k < i ==> self.entries@[k].0@ != tool@,
            decreases self.entries.len() - i,
        {
            if self.entries[i].0 == t {
                let s = self.entries[i].1.clone();
                proof {
                    lemma_route_at(self.entries@, i as int);
                }
                return Some(s);
            }
            i += 1;
        }
        proof {
            if self.routes().contains_key(tool@) {
                let j = choose|j: int| 0 <= j < self.entries@.len() && self.entries@[j].0@ == tool@;
                assert(self.entries@[j].0@ == tool@);
            }
        }
        None
    }

    /// Forgets every route.
    pub fn clear(&mut self)
        ensures
            final(self).routes() == Map::<Seq<char>, Seq<char>>::empty(),
    {
        self.entries = Vec::new();
        assert(self.routes() =~= Map::<Seq<char>, Seq<char>>::empty());
    }
}

} // verus!
