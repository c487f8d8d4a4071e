//! The update state machine. It performs no input or output itself: each
//! event handler returns the actions that the caller carries out, and the
//! outcome of each platform operation comes back through its own handler.
//! Events are taken one at a time; an inbound event (an attribute update, a
//! chunk, a tick) that arrives while a platform operation is outstanding is
//! not taken, and an outcome that is not awaited changes nothing.

use crate::assembler::{feed_of, Assembler};
use crate::attributes::{parse_attributes, update_of};
use crate::digest::{checksum_matches, digest_input, sha256_of, Sha256Stream, checksum_agrees};
use crate::text::{trim_of, trim_text};
use crate::topics::{
    attribute_request_topic, attribute_request_topic_of, chunk_request_topic,
    chunk_request_topic_of, decimal_chars, decimal_text, append_decimal, route, route_of, Inbound,
    FIRMWARE_INFO_REQUEST_BODY,
};
use vstd::prelude::*;
use vstd::utf8::encode_utf8;

verus! {

/// Bytes asked for in each chunk request.
pub const CHUNK_SIZE: u32 = 4096;

/// Chunk requests issued when a session opens.
pub const PIPELINE_DEPTH: u32 = 3;

/// Quiet time after which the awaited chunk is requested again.
pub const CHUNK_TIMEOUT_MS: u64 = 10000;

/// Heartbeats between two progress reports while downloading.
pub const HEARTBEAT_INTERVAL: u32 = 50;

/// How far past the next awaited chunk an early chunk may lie and still be kept.
pub const REORDER_CAPACITY: u32 = 12;

/// Why a session failed.
#[derive(PartialEq, Eq, Structural, Clone, Copy, Debug)]
pub enum FailReason {
    NoPartition,
    EraseFailed(i32),
    BeginFailed(i32),
    RequestFailed,
    EmptyChunkPremature,
    ChunkExceedsSize,
    WriteFailed(i32),
    EndFailed(i32),
    NoChecksum,
    ChecksumMismatch,
    SetBootFailed(i32),
}

/// Phase of the update lifecycle.
#[derive(PartialEq, Eq, Structural, Clone, Copy, Debug)]
pub enum OtaState {
    Idle,
    Downloading,
    Downloaded,
    Verifying,
    Updating,
    Updated,
    Failed(FailReason),
}


/// Decimal text of a signed number.
pub open spec fn signed_chars(n: i32) -> Seq<char> {
    if n < 0 {
        "-"@ + decimal_chars((-n) as nat)
    } else {
        decimal_chars(n as nat)
    }
}

/// The text reported for a failure.
pub open spec fn message_of(reason: FailReason) -> Seq<char> {
    match reason {
        FailReason::NoPartition => "No valid OTA partition found"@,
        FailReason::EraseFailed(c) => "Failed to erase OTA partition: "@ + signed_chars(c),
        FailReason::BeginFailed(c) => "Failed to begin OTA: "@ + signed_chars(c),
        FailReason::RequestFailed => "Failed to request firmware chunk"@,
        FailReason::EmptyChunkPremature => "Empty chunk received prematurely"@,
        FailReason::ChunkExceedsSize => "Chunk exceeds firmware size"@,
        FailReason::WriteFailed(c) => "Failed to write OTA data: "@ + signed_chars(c),
        FailReason::EndFailed(c) => "Failed to end OTA: "@ + signed_chars(c),
        FailReason::NoChecksum => "No checksum provided"@,
        FailReason::ChecksumMismatch => "Checksum verification failed"@,
        FailReason::SetBootFailed(c) => "Failed to set boot partition: "@ + signed_chars(c),
    }
}

/// The upper case name of a state, as reported.
pub open spec fn state_name_of(state: OtaState) -> Seq<char> {
    match state {
        OtaState::Idle => "IDLE"@,
        OtaState::Downloading => "DOWNLOADING"@,
        OtaState::Downloaded => "DOWNLOADED"@,
        OtaState::Verifying => "VERIFYING"@,
        OtaState::Updating => "UPDATING"@,
        OtaState::Updated => "UPDATED"@,
        OtaState::Failed(_) => "FAILED"@,
    }
}

fn append_signed(s: &mut String, n: i32)
    ensures
        final(s)@ == old(s)@ + signed_chars(n),
{
    if n < 0 {
        s.append("-");
        let magnitude = (0i64 - n as i64) as u32;
        append_decimal(s, magnitude);
        assert(final(s)@ =~= old(s)@ + signed_chars(n));
    } else {
        append_decimal(s, n as u32);
    }
}

fn with_code(prefix: &str, code: i32) -> (r: String)
    ensures
        r@ == prefix@ + signed_chars(code),
{
    let mut s = String::from_str(prefix);
    append_signed(&mut s, code);
    s
}

impl FailReason {
    /// The text reported for this failure.
    pub fn message(&self) -> (r: String)
        ensures
            r@ == message_of(*self),
    {
        match *self {
            FailReason::NoPartition => String::from_str("No valid OTA partition found"),
            FailReason::EraseFailed(c) => with_code("Failed to erase OTA partition: ", c),
            FailReason::BeginFailed(c) => with_code("Failed to begin OTA: ", c),
            FailReason::RequestFailed => String::from_str("Failed to request firmware chunk"),
            FailReason::EmptyChunkPremature => String::from_str("Empty chunk received prematurely"),
            FailReason::ChunkExceedsSize => String::from_str("Chunk exceeds firmware size"),
            FailReason::WriteFailed(c) => with_code("Failed to write OTA data: ", c),
            FailReason::EndFailed(c) => with_code("Failed to end OTA: ", c),
            FailReason::NoChecksum => String::from_str("No checksum provided"),
            FailReason::ChecksumMismatch => String::from_str("Checksum verification failed"),
            FailReason::SetBootFailed(c) => with_code("Failed to set boot partition: ", c),
        }
    }
}

impl OtaState {
    /// The upper case name of this state, as reported.
    pub fn name(&self) -> (r: &'static str)
        ensures
            r@ == state_name_of(*self),
    {
        match *self {
            OtaState::Idle => "IDLE",
            OtaState::Downloading => "DOWNLOADING",
            OtaState::Downloaded => "DOWNLOADED",
            OtaState::Verifying => "VERIFYING",
            OtaState::Updating => "UPDATING",
            OtaState::Updated => "UPDATED",
            OtaState::Failed(_) => "FAILED",
        }
    }
}

/// The platform operation whose outcome the controller waits for.
#[derive(PartialEq, Eq, Structural, Clone, Copy, Debug)]
pub enum Awaiting {
    Nothing,
    Slot,
    Erase,
    Begin,
    Request,
    Append,
    End,
    SetBoot,
}

/// The advertised image, as far as it is known.
pub struct Descriptor {
    pub title: Option<String>,
    pub version: Option<String>,
    pub size: Option<u32>,
    pub checksum: Option<String>,
    pub algorithm: Option<String>,
}

/// Device state as published on the telemetry topic.
pub struct TelemetryReport {
    pub state: OtaState,
    pub current_title: String,
    pub current_version: String,
    pub received: u64,
    pub size: Option<u32>,
}

/// Work for the caller.
pub enum Action {
    /// Publish a message; its outcome is not reported back.
    Publish { topic: String, payload: String },
    /// Publish a chunk request; report the outcome with `on_request_sent`.
    RequestChunk { topic: String, payload: String },
    /// Publish a state report on the telemetry topic; its outcome is not reported back.
    Telemetry(TelemetryReport),
    /// Pick the flash slot that is not running; report with `on_slot_selected`.
    SelectSlot,
    /// Erase a slot; report with `on_erased`.
    EraseSlot(u32),
    /// Open a write to a slot; report with `on_write_begun`.
    BeginWrite { slot: u32, size: u32 },
    /// Append bytes to the open write; report with `on_appended`.
    Append(Vec<u8>),
    /// Finish the open write; report with `on_write_ended`.
    EndWrite,
    /// Make a slot the next boot target; report with `on_boot_set`.
    SetBoot(u32),
    /// Restart the device.
    Reboot,
}

/// Why an attribute update did not lead anywhere.
#[derive(PartialEq, Eq, Structural, Clone, Copy, Debug)]
pub enum DescriptorError {
    /// Title or version is still unknown.
    Incomplete,
    /// Every session identifier has been used.
    SessionsExhausted,
}

/// Copies a byte slice.
fn copy_bytes(b: &[u8]) -> (r: Vec<u8>)
    ensures
        r@ == b@,
{
    let mut r: Vec<u8> = Vec::new();
    let mut i: usize = 0;
    while i < b.len()
        invariant
            i <= b@.len(),
            r@ == b@.take(i as int),
        decreases b@.len() - i,
    {
        r.push(b[i]);
        i = i + 1;
        assert(r@ =~= b@.take(i as int));
    }
    assert(b@.take(i as int) =~= b@);
    r
}

/// Copies optional text.
fn copy_text(s: &Option<String>) -> (r: Option<String>)
    ensures
        r == *s,
{
    match s {
        Some(t) => Some(t.clone()),
        None => None,
    }
}

/// The characters of optional text.
pub open spec fn text_view(s: Option<String>) -> Option<Seq<char>> {
    match s {
        Some(t) => Some(t@),
        None => None,
    }
}

/// Whether a report shows the given state, image and progress.
pub open spec fn reports(
    a: Action,
    state: OtaState,
    title: Seq<char>,
    version: Seq<char>,
    received: u64,
    size: Option<u32>,
) -> bool {
    match a {
        Action::Telemetry(t) => t.state == state && t.current_title@ == title && t.current_version@
            == version && t.received == received && t.size == size,
        _ => false,
    }
}

/// Whether `a` requests chunk `index` of session `session`.
pub open spec fn requests(a: Action, session: u32, index: u32) -> bool {
    match a {
        Action::RequestChunk { topic, payload } => topic@ == chunk_request_topic_of(session, index)
            && payload@ == decimal_chars(CHUNK_SIZE as nat),
        _ => false,
    }
}

/// Whether a session with this size has all its bytes at `received`.
pub open spec fn complete(size: Option<u32>, received: u64) -> bool {
    size == Some(received as u32) && received <= u32::MAX
}

/// Largest byte count a session with this size may receive.
pub open spec fn byte_bound(size: Option<u32>) -> nat {
    match size {
        Some(s) => s as nat,
        None => u32::MAX as nat,
    }
}

/// Abstract value of a descriptor.
pub struct DescriptorView {
    pub title: Option<Seq<char>>,
    pub version: Option<Seq<char>>,
    pub size: Option<u32>,
    pub checksum: Option<Seq<char>>,
    pub algorithm: Option<Seq<char>>,
}

impl Descriptor {
    pub open spec fn view(&self) -> DescriptorView {
        DescriptorView {
            title: text_view(self.title),
            version: text_view(self.version),
            size: self.size,
            checksum: text_view(self.checksum),
            algorithm: text_view(self.algorithm),
        }
    }
}

/// Abstract state of a controller.
pub struct OtaView {
    pub state: OtaState,
    /// The platform operation whose outcome is awaited.
    pub awaiting: Awaiting,
    /// The running image.
    pub current_title: Seq<char>,
    pub current_version: Seq<char>,
    /// What the server has advertised so far.
    pub advertised: DescriptorView,
    pub attr_request_id: u32,
    pub session_id: u32,
    /// The image that the session downloads.
    pub session_title: Seq<char>,
    pub session_version: Seq<char>,
    pub session_size: Option<u32>,
    pub session_checksum: Option<Seq<char>>,
    /// Index of the next chunk to be written.
    pub next_chunk: u32,
    /// Bytes written in this session.
    pub received: u64,
    /// What the running digest has consumed.
    pub digest_input: Seq<u8>,
    /// The chunk bodies written in this session, in order.
    pub committed: Seq<Seq<u8>>,
    /// The body taken for each chunk index in this session.
    pub delivered: Map<u32, Seq<u8>>,
    /// Chunks held back until their turn, as (index, body), by index.
    pub buffered: Seq<(u32, Seq<u8>)>,
    /// The chunk whose append is awaited.
    pub in_flight: Seq<u8>,
    pub target_slot: Option<u32>,
    pub running_slot: Option<u32>,
    pub last_chunk_ms: u64,
    pub heartbeat: u32,
    /// Next index of the current run of chunk requests, and how many remain.
    pub pipeline_next: u32,
    pub pipeline_left: u32,
    /// Fragments gathered of the chunk message in transit.
    pub assembling: Seq<u8>,
}

/// Descriptor `d` after an attribute update `u`: each field that `u` carries
/// replaces the one in `d`.
pub open spec fn merge_of(d: DescriptorView, u: DescriptorView) -> DescriptorView {
    DescriptorView {
        title: if u.title.is_some() { u.title } else { d.title },
        version: if u.version.is_some() { u.version } else { d.version },
        size: if u.size.is_some() { u.size } else { d.size },
        checksum: if u.checksum.is_some() { u.checksum } else { d.checksum },
        algorithm: if u.algorithm.is_some() { u.algorithm } else { d.algorithm },
    }
}

/// Whether `after` is `before` failed with `reason`, having reported it in `out`.
pub open spec fn failed_as(before: OtaView, after: OtaView, out: Seq<Action>, reason: FailReason) -> bool {
    &&& after == (OtaView {
        state: OtaState::Failed(reason),
        awaiting: Awaiting::Nothing,
        buffered: Seq::empty(),
        in_flight: Seq::empty(),
        heartbeat: 0,
        pipeline_left: 0,
        ..before
    })
    &&& out.len() == 1
    &&& reports(
        out[0],
        OtaState::Failed(reason),
        before.current_title,
        before.current_version,
        before.received,
        before.session_size,
    )
}
/// Whether the merged descriptor names an image other than the running one.
pub open spec fn names_new_image(o: OtaView, u: DescriptorView) -> bool {
    let d = merge_of(o.advertised, u);
    match (d.title, d.version) {
        (Some(t), Some(v)) => !(trim_of(t) == trim_of(o.current_title) && trim_of(v) == trim_of(
            o.current_version,
        )),
        _ => false,
    }
}

/// The error of taking attribute update `u` in state `o`, if any.
pub open spec fn attributes_error(o: OtaView, u: DescriptorView) -> Option<DescriptorError> {
    let d = merge_of(o.advertised, u);
    if d.title.is_none() || d.version.is_none() {
        Some(DescriptorError::Incomplete)
    } else if names_new_image(o, u) && o.session_id == u32::MAX {
        Some(DescriptorError::SessionsExhausted)
    } else {
        None
    }
}

/// Whether `after` and `out` are what taking attribute update `u` at time
/// `now` makes of `o`: the update is merged into the advertised descriptor,
/// and a new image opens a fresh session that asks for a flash slot.
pub open spec fn attributes_step(
    o: OtaView,
    u: DescriptorView,
    now: u64,
    after: OtaView,
    out: Seq<Action>,
) -> bool {
    let d = merge_of(o.advertised, u);
    let kept = OtaView { advertised: d, ..o };
    if names_new_image(o, u) && o.session_id < u32::MAX {
        &&& after == (OtaView {
            state: OtaState::Downloading,
            awaiting: Awaiting::Slot,
            session_id: (o.session_id + 1) as u32,
            session_title: d.title.unwrap(),
            session_version: d.version.unwrap(),
            session_size: d.size,
            session_checksum: d.checksum,
            next_chunk: 0,
            received: 0,
            digest_input: Seq::empty(),
            committed: Seq::empty(),
            delivered: Map::empty(),
            buffered: Seq::empty(),
            in_flight: Seq::empty(),
            target_slot: None,
            running_slot: None,
            last_chunk_ms: now,
            heartbeat: 0,
            pipeline_left: 0,
            ..kept
        })
        &&& out == seq![Action::SelectSlot]
    } else {
        after == kept && out.len() == 0
    }
}

/// Where an entry for chunk `index` goes in a buffer ordered by index.
pub open spec fn position_of(b: Seq<(u32, Seq<u8>)>, index: u32) -> int
    decreases b.len(),
{
    if b.len() == 0 || b[0].0 >= index {
        0
    } else {
        1 + position_of(b.drop_first(), index)
    }
}

/// Whether the buffer holds chunk `index`.
pub open spec fn holds_index(b: Seq<(u32, Seq<u8>)>, index: u32) -> bool {
    exists|i: int| 0 <= i < b.len() && (#[trigger] b[i]).0 == index
}


/// Whether `after` and `r` are what taking chunk `index` with `body` at time
/// `now` makes of `o`: the awaited chunk is written, a later one within
/// reach is held back, and anything else changes nothing.
pub open spec fn chunk_taken(
    o: OtaView,
    index: u32,
    body: Seq<u8>,
    now: u64,
    after: OtaView,
    r: Seq<Action>,
) -> bool {
    if !(o.state == OtaState::Downloading && o.awaiting == Awaiting::Nothing) {
        after == o && r.len() == 0
    } else if index < o.next_chunk {
        after == o && r.len() == 0
    } else if index > o.next_chunk {
        if holds_index(o.buffered, index) || index > o.next_chunk + REORDER_CAPACITY {
            after == o && r.len() == 0
        } else {
            after == (OtaView {
                buffered: o.buffered.insert(position_of(o.buffered, index), (index, body)),
                delivered: o.delivered.insert(index, body),
                last_chunk_ms: now,
                ..o
            }) && r.len() == 0
        }
    } else if body.len() == 0 {
        failed_as(o, after, r, FailReason::EmptyChunkPremature)
    } else if o.received + body.len() > byte_bound(o.session_size) {
        failed_as(o, after, r, FailReason::ChunkExceedsSize)
    } else {
        &&& after == (OtaView {
            awaiting: Awaiting::Append,
            in_flight: body,
            delivered: o.delivered.insert(index, body),
            last_chunk_ms: now,
            ..o
        })
        &&& r.len() == 1
        &&& r[0] matches Action::Append(v) && v@ == body
    }
}

/// The update controller.
pub struct OtaController {
    current_title: String,
    current_version: String,
    advertised: Descriptor,
    state: OtaState,
    attr_request_id: u32,
    session_id: u32,
    session_title: String,
    session_version: String,
    session_size: Option<u32>,
    session_checksum: Option<String>,
    next_chunk: u32,
    received: u64,
    hasher: Sha256Stream,
    reorder: Vec<(u32, Vec<u8>)>,
    target_slot: Option<u32>,
    running_slot: Option<u32>,
    last_chunk_ms: u64,
    heartbeat: u32,
    awaiting: Awaiting,
    in_flight: Vec<u8>,
    pipeline_next: u32,
    pipeline_left: u32,
    assembler: Assembler,
    committed: Ghost<Seq<Seq<u8>>>,
    delivered: Ghost<Map<u32, Seq<u8>>>,
}

impl OtaController {
    pub closed spec fn view(&self) -> OtaView {
        OtaView {
            state: self.state,
            awaiting: self.awaiting,
            current_title: self.current_title@,
            current_version: self.current_version@,
            advertised: self.advertised@,
            attr_request_id: self.attr_request_id,
            session_id: self.session_id,
            session_title: self.session_title@,
            session_version: self.session_version@,
            session_size: self.session_size,
            session_checksum: text_view(self.session_checksum),
            next_chunk: self.next_chunk,
            received: self.received,
            digest_input: digest_input(self.hasher),
            committed: self.committed@,
            delivered: self.delivered@,
            buffered: self.reorder@.map_values(|e: (u32, Vec<u8>)| (e.0, e.1@)),
            in_flight: self.in_flight@,
            target_slot: self.target_slot,
            running_slot: self.running_slot,
            last_chunk_ms: self.last_chunk_ms,
            heartbeat: self.heartbeat,
            pipeline_next: self.pipeline_next,
            pipeline_left: self.pipeline_left,
            assembling: self.assembler@,
        }
    }

    /// Whether the buffered chunk indices increase strictly and lie in the
    /// window from the next awaited chunk on.
    pub closed spec fn buffer_ordered(&self) -> bool {
        &&& forall|i: int, j: int|
            0 <= i < j < self.reorder@.len() ==> #[trigger] self.reorder@[i].0
                < #[trigger] self.reorder@[j].0
        &&& forall|i: int|
            0 <= i < self.reorder@.len() ==> self.next_chunk <= #[trigger] self.reorder@[i].0
                && self.reorder@[i].0 <= self.next_chunk + REORDER_CAPACITY
    }

    /// The invariant, but for the step from a complete download to `Downloaded`.
    pub closed spec fn wf_core(&self) -> bool {
        &&& digest_input(self.hasher) == self.committed@.flatten()
        &&& self.received as int == self.committed@.flatten().len()
        &&& self.next_chunk as int == self.committed@.len()
        &&& self.next_chunk as int <= self.received as int
        &&& self.received <= byte_bound(self.session_size)
        &&& forall|i: int|
            0 <= i < self.committed@.len() ==> #[trigger] self.committed@[i].len() > 0
                && self.delivered@.contains_key(i as u32) && self.delivered@[i as u32]
                == self.committed@[i]
        &&& self.buffer_ordered()
        &&& forall|i: int|
            0 <= i < self.reorder@.len() ==> self.delivered@.contains_key(
                (#[trigger] self.reorder@[i]).0,
            ) && self.delivered@[self.reorder@[i].0] == self.reorder@[i].1@
        &&& self.state != OtaState::Downloading ==> self.reorder@.len() == 0
        &&& self.awaiting == Awaiting::Append ==> self.state == OtaState::Downloading
            && self.in_flight@.len() > 0 && self.received + self.in_flight@.len() <= byte_bound(
            self.session_size,
        ) && self.delivered@.contains_key(self.next_chunk) && self.delivered@[self.next_chunk]
            == self.in_flight@ && self.next_chunk < u32::MAX
        &&& (self.awaiting == Awaiting::Slot || self.awaiting == Awaiting::Erase
            || self.awaiting == Awaiting::Begin || self.awaiting == Awaiting::Request)
            ==> self.state == OtaState::Downloading
        &&& (self.awaiting == Awaiting::Erase || self.awaiting == Awaiting::Begin
            || self.awaiting == Awaiting::Request || self.awaiting == Awaiting::Append
            || self.awaiting == Awaiting::End || self.awaiting == Awaiting::SetBoot)
            ==> self.target_slot.is_some()
        &&& (self.awaiting == Awaiting::Slot || self.awaiting == Awaiting::Erase
            || self.awaiting == Awaiting::Begin) ==> self.reorder@.len() == 0 && self.received == 0
        &&& self.state == OtaState::Downloading && self.awaiting != Awaiting::Slot
            ==> self.target_slot.is_some()
        &&& self.awaiting == Awaiting::End ==> self.state == OtaState::Downloaded
        &&& self.awaiting == Awaiting::SetBoot ==> self.state == OtaState::Updating
        &&& self.target_slot.is_some() ==> self.running_slot.is_some() && self.target_slot
            != self.running_slot
        &&& (self.state == OtaState::Downloaded || self.state == OtaState::Verifying
            || self.state == OtaState::Updating || self.state == OtaState::Updated)
            ==> complete(self.session_size, self.received)
    }

    /// The controller's invariant.
    pub closed spec fn wf(&self) -> bool {
        &&& self.wf_core()
        &&& forall|i: int|
            0 <= i < self.reorder@.len() ==> self.next_chunk < (#[trigger] self.reorder@[i]).0
        &&& self.state == OtaState::Downloading ==> !complete(self.session_size, self.received)
            || (self.received == 0 && self.awaiting != Awaiting::Nothing
            && self.awaiting != Awaiting::Request && self.awaiting != Awaiting::Append)
    }

    /// A controller for a device running the image `title` / `version`.
    pub fn new(title: String, version: String) -> (r: OtaController)
        ensures
            r.wf(),
            r@ == (OtaView {
                state: OtaState::Idle,
                awaiting: Awaiting::Nothing,
                current_title: title@,
                current_version: version@,
                advertised: DescriptorView {
                    title: None,
                    version: None,
                    size: None,
                    checksum: None,
                    algorithm: None,
                },
                attr_request_id: 0,
                session_id: 0,
                session_title: Seq::empty(),
                session_version: Seq::empty(),
                session_size: None,
                session_checksum: None,
                next_chunk: 0,
                received: 0,
                digest_input: Seq::empty(),
                committed: Seq::empty(),
                delivered: Map::empty(),
                buffered: Seq::empty(),
                in_flight: Seq::empty(),
                target_slot: None,
                running_slot: None,
                last_chunk_ms: 0,
                heartbeat: 0,
                pipeline_next: 0,
                pipeline_left: 0,
                assembling: Seq::empty(),
            }),
    {
        let r = OtaController {
            current_title: title,
            current_version: version,
            advertised: Descriptor {
                title: None,
                version: None,
                size: None,
                checksum: None,
                algorithm: None,
            },
            state: OtaState::Idle,
            attr_request_id: 0,
            session_id: 0,
            session_title: String::new(),
            session_version: String::new(),
            session_size: None,
            session_checksum: None,
            next_chunk: 0,
            received: 0,
            hasher: Sha256Stream::new(),
            reorder: Vec::new(),
            target_slot: None,
            running_slot: None,
            last_chunk_ms: 0,
            heartbeat: 0,
            awaiting: Awaiting::Nothing,
            in_flight: Vec::new(),
            pipeline_next: 0,
            pipeline_left: 0,
            assembler: Assembler::new(),
            committed: Ghost(Seq::empty()),
            delivered: Ghost(Map::empty()),
        };
        proof {
            assert(r.committed@.flatten() =~= Seq::<u8>::empty());
            assert(r@.buffered =~= Seq::empty());
        }
        r
    }

    /// The report of the current state.
    fn report(&self) -> (r: TelemetryReport)
        ensures
            reports(
                Action::Telemetry(r),
                self.state,
                self.current_title@,
                self.current_version@,
                self.received,
                self.session_size,
            ),
    {
        TelemetryReport {
            state: self.state,
            current_title: self.current_title.clone(),
            current_version: self.current_version.clone(),
            received: self.received,
            size: self.session_size,
        }
    }

    /// Counts a heartbeat and reports the state, unless downloading and
    /// fewer than `HEARTBEAT_INTERVAL` heartbeats have passed.
    fn heartbeat_report(&mut self, out: &mut Vec<Action>)
        ensures
            ({
                let count = if old(self).heartbeat < u32::MAX {
                    old(self).heartbeat + 1
                } else {
                    old(self).heartbeat as int
                };
                if old(self).state == OtaState::Downloading && count < HEARTBEAT_INTERVAL {
                    *final(self) == (OtaController { heartbeat: count as u32, ..*old(self) })
                        && final(out)@ == old(out)@
                } else {
                    *final(self) == (OtaController { heartbeat: 0, ..*old(self) })
                        && final(out)@.len() == old(out)@.len() + 1 && final(out)@.drop_last()
                        == old(out)@ && reports(
                        final(out)@.last(),
                        old(self).state,
                        old(self).current_title@,
                        old(self).current_version@,
                        old(self).received,
                        old(self).session_size,
                    )
                }
            }),
    {
        if self.heartbeat < u32::MAX {
            self.heartbeat = self.heartbeat + 1;
        }
        if self.state == OtaState::Downloading && self.heartbeat < HEARTBEAT_INTERVAL {
            return;
        }
        self.heartbeat = 0;
        out.push(Action::Telemetry(self.report()));
    }

    /// Ends the session with `reason`, drops what it held back, and reports.
    fn fail(&mut self, reason: FailReason, out: &mut Vec<Action>)
        requires
            old(self).wf_core(),
        ensures
            final(self).wf(),
            *final(self) == (OtaController {
                state: OtaState::Failed(reason),
                awaiting: Awaiting::Nothing,
                reorder: final(self).reorder,
                in_flight: final(self).in_flight,
                heartbeat: 0,
                pipeline_left: 0,
                ..*old(self)
            }),
            final(self)@ == (OtaView {
                state: OtaState::Failed(reason),
                awaiting: Awaiting::Nothing,
                buffered: Seq::empty(),
                in_flight: Seq::empty(),
                heartbeat: 0,
                pipeline_left: 0,
                ..old(self)@
            }),
            final(out)@.len() == old(out)@.len() + 1,
            final(out)@.drop_last() == old(out)@,
            reports(
                final(out)@.last(),
                OtaState::Failed(reason),
                old(self).current_title@,
                old(self).current_version@,
                old(self).received,
                old(self).session_size,
            ),
    {
        self.state = OtaState::Failed(reason);
        self.awaiting = Awaiting::Nothing;
        self.reorder = Vec::new();
        self.in_flight = Vec::new();
        self.pipeline_left = 0;
        self.heartbeat = 0;
        out.push(Action::Telemetry(self.report()));
        assert(self@.buffered =~= Seq::empty());
    }

    /// Issues the next request of the current pipeline, unless the pipeline
    /// is spent or the session has all its bytes.
    fn issue_request(&mut self, out: &mut Vec<Action>)
        requires
            old(self).wf(),
            old(self).state == OtaState::Downloading,
            old(self).awaiting == Awaiting::Nothing,
            old(self).target_slot.is_some(),
        ensures
            final(self).wf(),
            ({
                let suppressed = old(self).pipeline_left == 0 || (old(self).session_size.is_some()
                    && old(self).received >= old(self).session_size.unwrap());
                if suppressed {
                    *final(self) == *old(self) && final(out)@ == old(out)@
                } else {
                    *final(self) == (OtaController {
                        awaiting: Awaiting::Request,
                        pipeline_next: if old(self).pipeline_next < u32::MAX {
                            (old(self).pipeline_next + 1) as u32
                        } else {
                            old(self).pipeline_next
                        },
                        pipeline_left: if old(self).pipeline_next < u32::MAX {
                            (old(self).pipeline_left - 1) as u32
                        } else {
                            0
                        },
                        ..*old(self)
                    }) && final(out)@.len() == old(out)@.len() + 1 && final(out)@.drop_last()
                        == old(out)@ && requests(
                        final(out)@.last(),
                        old(self).session_id,
                        old(self).pipeline_next,
                    )
                }
            }),
    {
        if self.pipeline_left == 0 {
            return;
        }
        match self.session_size {
            Some(size) => {
                if self.received >= size as u64 {
                    return;
                }
            },
            None => {},
        }
        let topic = chunk_request_topic(self.session_id, self.pipeline_next);
        let payload = decimal_text(CHUNK_SIZE);
        out.push(Action::RequestChunk { topic, payload });
        self.awaiting = Awaiting::Request;
        if self.pipeline_next < u32::MAX {
            self.pipeline_next = self.pipeline_next + 1;
            self.pipeline_left = self.pipeline_left - 1;
        } else {
            self.pipeline_left = 0;
        }
    }

    /// Starts a pipeline of `count` requests from chunk `from`.
    fn request_chunks(&mut self, from: u32, count: u32, out: &mut Vec<Action>)
        requires
            old(self).wf(),
            old(self).state == OtaState::Downloading,
            old(self).awaiting == Awaiting::Nothing,
            old(self).target_slot.is_some(),
            count > 0,
        ensures
            final(self).wf(),
            ({
                let suppressed = old(self).session_size.is_some() && old(self).received
                    >= old(self).session_size.unwrap();
                if suppressed {
                    *final(self) == (OtaController {
                        pipeline_next: from,
                        pipeline_left: count,
                        ..*old(self)
                    }) && final(out)@ == old(out)@
                } else {
                    *final(self) == (OtaController {
                        awaiting: Awaiting::Request,
                        pipeline_next: if from < u32::MAX {
                            (from + 1) as u32
                        } else {
                            from
                        },
                        pipeline_left: if from < u32::MAX {
                            (count - 1) as u32
                        } else {
                            0
                        },
                        ..*old(self)
                    }) && final(out)@.len() == old(out)@.len() + 1 && final(out)@.drop_last()
                        == old(out)@ && requests(final(out)@.last(), old(self).session_id, from)
                }
            }),
    {
        self.pipeline_next = from;
        self.pipeline_left = count;
        self.issue_request(out);
    }

    /// Enters `Downloaded`, reports it, and asks for the write to be finished.
    fn finish_download(&mut self, out: &mut Vec<Action>)
        requires
            old(self).wf_core(),
            old(self).state == OtaState::Downloading,
            old(self).awaiting == Awaiting::Nothing,
            old(self).target_slot.is_some(),
            complete(old(self).session_size, old(self).received),
        ensures
            final(self).wf(),
            *final(self) == (OtaController {
                state: OtaState::Downloaded,
                awaiting: Awaiting::End,
                reorder: final(self).reorder,
                heartbeat: 0,
                ..*old(self)
            }),
            final(self).reorder@.len() == 0,
            final(self)@ == (OtaView {
                state: OtaState::Downloaded,
                awaiting: Awaiting::End,
                buffered: Seq::empty(),
                heartbeat: 0,
                ..old(self)@
            }),
            final(out)@.len() == old(out)@.len() + 2,
            final(out)@.take(old(out)@.len() as int) == old(out)@,
            reports(
                final(out)@[old(out)@.len() as int],
                OtaState::Downloaded,
                old(self).current_title@,
                old(self).current_version@,
                old(self).received,
                old(self).session_size,
            ),
            final(out)@.last() == Action::EndWrite,
    {
        self.state = OtaState::Downloaded;
        self.reorder = Vec::new();
        self.heartbeat_report(out);
        self.awaiting = Awaiting::End;
        out.push(Action::EndWrite);
        proof {
            assert(final(out)@.take(old(out)@.len() as int) =~= old(out)@);
            assert(self@.buffered =~= Seq::empty());
        }
    }


    /// Takes an attribute update: merges it into the advertised descriptor
    /// and, when the advertised title or version differs from the running
    /// image's once trimmed, opens a new session and asks for a flash slot.
    /// A session in progress is abandoned, whatever outcome it awaited.
    pub fn on_attributes(&mut self, update: Descriptor, now: u64) -> (r: Result<
        Vec<Action>,
        DescriptorError,
    >)
        requires
            old(self).wf(),
        ensures
            final(self).wf(),
            attributes_step(
                old(self)@,
                update@,
                now,
                final(self)@,
                match r {
                    Ok(v) => v@,
                    Err(_) => Seq::empty(),
                },
            ),
            match r {
                Ok(_) => attributes_error(old(self)@, update@).is_none(),
                Err(e) => attributes_error(old(self)@, update@) == Some(e),
            },
    {
        if update.title.is_some() {
            self.advertised.title = update.title;
        }
        if update.version.is_some() {
            self.advertised.version = update.version;
        }
        if update.size.is_some() {
            self.advertised.size = update.size;
        }
        if update.checksum.is_some() {
            self.advertised.checksum = update.checksum;
        }
        if update.algorithm.is_some() {
            self.advertised.algorithm = update.algorithm;
        }
        let (title, version) = match (&self.advertised.title, &self.advertised.version) {
            (Some(t), Some(v)) => (t.clone(), v.clone()),
            _ => {
                return Err(DescriptorError::Incomplete);
            },
        };
        let same_title = trim_text(title.as_str()) == trim_text(self.current_title.as_str());
        let same_version = trim_text(version.as_str()) == trim_text(self.current_version.as_str());
        if same_title && same_version {
            return Ok(Vec::new());
        }
        if self.session_id == u32::MAX {
            return Err(DescriptorError::SessionsExhausted);
        }
        self.state = OtaState::Downloading;
        self.session_id = self.session_id + 1;
        self.session_title = title;
        self.session_version = version;
        self.session_size = self.advertised.size;
        self.session_checksum = copy_text(&self.advertised.checksum);
        self.next_chunk = 0;
        self.received = 0;
        self.hasher = Sha256Stream::new();
        self.reorder = Vec::new();
        self.in_flight = Vec::new();
        self.target_slot = None;
        self.running_slot = None;
        self.last_chunk_ms = now;
        self.heartbeat = 0;
        self.pipeline_left = 0;
        self.committed = Ghost(Seq::empty());
        self.delivered = Ghost(Map::empty());
        self.awaiting = Awaiting::Slot;
        proof {
            assert(self.committed@.flatten() =~= Seq::<u8>::empty());
            assert(self@.buffered =~= Seq::empty());
        }
        let mut out: Vec<Action> = Vec::new();
        out.push(Action::SelectSlot);
        Ok(out)
    }

    /// Takes the slot that the platform offers for the new image, and the
    /// running one. The session fails unless the two differ.
    pub fn on_slot_selected(&mut self, slot: Option<u32>, running: u32) -> (r: Vec<Action>)
        requires
            old(self).wf(),
        ensures
            final(self).wf(),
            old(self)@.awaiting != Awaiting::Slot ==> final(self)@ == old(self)@ && r@.len() == 0,
            old(self)@.awaiting == Awaiting::Slot ==> match slot {
                Some(s) => if s != running {
                    final(self)@ == (OtaView {
                        target_slot: Some(s),
                        running_slot: Some(running),
                        awaiting: Awaiting::Erase,
                        ..old(self)@
                    }) && r@ == seq![Action::EraseSlot(s)]
                } else {
                    failed_as(old(self)@, final(self)@, r@, FailReason::NoPartition)
                },
                None => failed_as(old(self)@, final(self)@, r@, FailReason::NoPartition),
            },
    {
        let mut out: Vec<Action> = Vec::new();
        if self.awaiting != Awaiting::Slot {
            return out;
        }
        match slot {
            Some(s) => {
                if s != running {
                    self.target_slot = Some(s);
                    self.running_slot = Some(running);
                    self.awaiting = Awaiting::Erase;
                    out.push(Action::EraseSlot(s));
                    return out;
                }
            },
            None => {},
        }
        self.fail(FailReason::NoPartition, &mut out);
        proof {
            assert(final(self)@.buffered =~= Seq::empty());
        }
        out
    }

    /// Takes the outcome of erasing the target slot (zero for success).
    pub fn on_erased(&mut self, code: i32) -> (r: Vec<Action>)
        requires
            old(self).wf(),
        ensures
            final(self).wf(),
            old(self)@.awaiting != Awaiting::Erase ==> final(self)@ == old(self)@ && r@.len() == 0,
            old(self)@.awaiting == Awaiting::Erase && code == 0 ==> final(self)@ == (OtaView {
                awaiting: Awaiting::Begin,
                ..old(self)@
            }) && r@ == seq![
                Action::BeginWrite {
                    slot: old(self)@.target_slot.unwrap(),
                    size: match old(self)@.session_size {
                        Some(s) => s,
                        None => 0,
                    },
                },
            ],
            old(self)@.awaiting == Awaiting::Erase && code != 0 ==> failed_as(
                old(self)@,
                final(self)@,
                r@,
                FailReason::EraseFailed(code),
            ),
    {
        let mut out: Vec<Action> = Vec::new();
        if self.awaiting != Awaiting::Erase {
            return out;
        }
        if code != 0 {
            self.fail(FailReason::EraseFailed(code), &mut out);
            proof {
                assert(final(self)@.buffered =~= Seq::empty());
            }
            return out;
        }
        let slot = match self.target_slot {
            Some(s) => s,
            None => {
                return out;
            },
        };
        let size = match self.session_size {
            Some(s) => s,
            None => 0,
        };
        self.awaiting = Awaiting::Begin;
        out.push(Action::BeginWrite { slot, size });
        out
    }

    /// Takes the outcome of opening the write (zero for success). On success
    /// an empty image is finished at once; otherwise the first
    /// `PIPELINE_DEPTH` chunks are requested, one after another.
    pub fn on_write_begun(&mut self, code: i32) -> (r: Vec<Action>)
        requires
            old(self).wf(),
        ensures
            final(self).wf(),
            old(self)@.awaiting != Awaiting::Begin ==> final(self)@ == old(self)@ && r@.len() == 0,
            old(self)@.awaiting == Awaiting::Begin && code != 0 ==> failed_as(
                old(self)@,
                final(self)@,
                r@,
                FailReason::BeginFailed(code),
            ),
            old(self)@.awaiting == Awaiting::Begin && code == 0 && old(self)@.session_size == Some(
                0u32,
            ) ==> final(self)@ == (OtaView {
                state: OtaState::Downloaded,
                awaiting: Awaiting::End,
                heartbeat: 0,
                ..old(self)@
            }) && r@.len() == 2 && reports(
                r@[0],
                OtaState::Downloaded,
                old(self)@.current_title,
                old(self)@.current_version,
                0,
                Some(0u32),
            ) && r@[1] == Action::EndWrite,
            old(self)@.awaiting == Awaiting::Begin && code == 0 && old(self)@.session_size != Some(
                0u32,
            ) ==> {
                let count = if old(self)@.heartbeat < u32::MAX {
                    old(self)@.heartbeat + 1
                } else {
                    old(self)@.heartbeat as int
                };
                &&& final(self)@ == (OtaView {
                    awaiting: Awaiting::Request,
                    pipeline_next: 1,
                    pipeline_left: (PIPELINE_DEPTH - 1) as u32,
                    heartbeat: if count < HEARTBEAT_INTERVAL {
                        count as u32
                    } else {
                        0
                    },
                    ..old(self)@
                })
                &&& r@.len() == if count < HEARTBEAT_INTERVAL {
                    1int
                } else {
                    2
                }
                &&& count >= HEARTBEAT_INTERVAL ==> reports(
                    r@[0],
                    OtaState::Downloading,
                    old(self)@.current_title,
                    old(self)@.current_version,
                    0,
                    old(self)@.session_size,
                )
                &&& requests(r@.last(), old(self)@.session_id, 0)
            },
    {
        let mut out: Vec<Action> = Vec::new();
        if self.awaiting != Awaiting::Begin {
            return out;
        }
        if code != 0 {
            self.fail(FailReason::BeginFailed(code), &mut out);
            proof {
                assert(final(self)@.buffered =~= Seq::empty());
            }
            return out;
        }
        assert(self@.buffered =~= Seq::empty());
        self.awaiting = Awaiting::Nothing;
        if self.session_size == Some(0u32) {
            self.finish_download(&mut out);
            return out;
        }
        let ghost before = *self;
        self.heartbeat_report(&mut out);
        let ghost mid = *self;
        let ghost mid_out = out@;
        self.request_chunks(0, PIPELINE_DEPTH, &mut out);
        proof {
            assert(mid.session_size == before.session_size);
            assert(mid.received == 0);
            assert(!(mid.session_size.is_some() && mid.received >= mid.session_size.unwrap()));
            assert(self.pipeline_next == 1);
            assert(out@.len() == mid_out.len() + 1);
        }
        out
    }

    /// Takes the outcome of publishing a chunk request. A failed request
    /// fails the session; otherwise the run of requests goes on.
    pub fn on_request_sent(&mut self, sent: bool) -> (r: Vec<Action>)
        requires
            old(self).wf(),
        ensures
            final(self).wf(),
            old(self)@.awaiting != Awaiting::Request ==> final(self)@ == old(self)@ && r@.len()
                == 0,
            old(self)@.awaiting == Awaiting::Request && !sent ==> failed_as(
                old(self)@,
                final(self)@,
                r@,
                FailReason::RequestFailed,
            ),
            old(self)@.awaiting == Awaiting::Request && sent ==> if old(self)@.pipeline_left == 0 {
                final(self)@ == (OtaView { awaiting: Awaiting::Nothing, ..old(self)@ }) && r@.len()
                    == 0
            } else {
                &&& final(self)@ == (OtaView {
                    awaiting: Awaiting::Request,
                    pipeline_next: if old(self)@.pipeline_next < u32::MAX {
                        (old(self)@.pipeline_next + 1) as u32
                    } else {
                        old(self)@.pipeline_next
                    },
                    pipeline_left: if old(self)@.pipeline_next < u32::MAX {
                        (old(self)@.pipeline_left - 1) as u32
                    } else {
                        0
                    },
                    ..old(self)@
                })
                &&& r@.len() == 1
                &&& requests(r@[0], old(self)@.session_id, old(self)@.pipeline_next)
            },
    {
        let mut out: Vec<Action> = Vec::new();
        if self.awaiting != Awaiting::Request {
            return out;
        }
        if !sent {
            self.fail(FailReason::RequestFailed, &mut out);
            proof {
                assert(final(self)@.buffered =~= Seq::empty());
            }
            return out;
        }
        self.awaiting = Awaiting::Nothing;
        self.issue_request(&mut out);
        out
    }

    fn bound_of(&self) -> (r: u64)
        ensures
            r == byte_bound(self.session_size),
    {
        match self.session_size {
            Some(s) => s as u64,
            None => 0xffff_ffff,
        }
    }

    /// Puts an early chunk in the buffer, in index order, unless its index
    /// is already there.
    fn buffer_chunk(&mut self, index: u32, body: Vec<u8>) -> (inserted: bool)
        requires
            old(self).wf(),
            old(self).state == OtaState::Downloading,
            old(self).awaiting == Awaiting::Nothing,
            old(self).next_chunk < index,
            index <= old(self).next_chunk + REORDER_CAPACITY,
        ensures
            final(self).wf(),
            inserted == !holds_index(old(self)@.buffered, index),
            inserted ==> final(self)@ == (OtaView {
                buffered: old(self)@.buffered.insert(
                    position_of(old(self)@.buffered, index),
                    (index, body@),
                ),
                delivered: old(self)@.delivered.insert(index, body@),
                ..old(self)@
            }),
            !inserted ==> *final(self) == *old(self),
    {
        let ghost b = self@.buffered;
        assert(b.skip(0) =~= b);
        let mut i: usize = 0;
        while i < self.reorder.len() && self.reorder[i].0 < index
            invariant
                self.wf(),
                *self == *old(self),
                b == self@.buffered,
                i <= self.reorder@.len(),
                forall|j: int| 0 <= j < i ==> (#[trigger] self.reorder@[j]).0 < index,
                position_of(b, index) == i + position_of(b.skip(i as int), index),
            decreases self.reorder@.len() - i,
        {
            assert(b.skip(i as int).drop_first() =~= b.skip(i + 1));
            assert(b[i as int].0 == self.reorder@[i as int].0);
            i = i + 1;
        }
        proof {
            if i < self.reorder@.len() {
                assert(b.skip(i as int)[0] == b[i as int]);
            }
        }
        if i < self.reorder.len() && self.reorder[i].0 == index {
            assert(b[i as int].0 == index);
            return false;
        }
        proof {
            assert forall|j: int| 0 <= j < b.len() implies (#[trigger] b[j]).0 != index by {
                assert(b[j].0 == self.reorder@[j].0);
                if j > i {
                    assert(self.reorder@[i as int].0 < self.reorder@[j].0);
                }
            }
        }
        let ghost old_reorder = self.reorder@;
        self.reorder.insert(i, (index, body));
        proof {
            self.delivered@ = self.delivered@.insert(index, self.reorder@[i as int].1@);
            assert(self@.buffered =~= b.insert(i as int, (index, body@)));
            assert forall|j: int, k: int|
                0 <= j < k < self.reorder@.len() implies #[trigger] self.reorder@[j].0
                < #[trigger] self.reorder@[k].0 by {
                if k < i {
                } else if k == i {
                } else if j < i {
                    assert(self.reorder@[k] == old_reorder[k - 1]);
                } else if j == i {
                    assert(self.reorder@[k] == old_reorder[k - 1]);
                    if i < old_reorder.len() {
                        assert(old_reorder[i as int].0 >= index);
                        if k - 1 > i {
                            assert(old_reorder[i as int].0 < old_reorder[k - 1].0);
                        }
                    }
                } else {
                    assert(self.reorder@[k] == old_reorder[k - 1]);
                    assert(self.reorder@[j] == old_reorder[j - 1]);
                }
            }
            assert forall|j: int| 0 <= j < self.reorder@.len() implies self.delivered@.contains_key(
                (#[trigger] self.reorder@[j]).0,
            ) && self.delivered@[self.reorder@[j].0] == self.reorder@[j].1@ by {
                if j > i {
                    assert(self.reorder@[j] == old_reorder[j - 1]);
                } else if j < i {
                    assert(self.reorder@[j] == old_reorder[j]);
                }
            }
            assert forall|j: int| 0 <= j < self.reorder@.len() implies old(self).next_chunk
                < (#[trigger] self.reorder@[j]).0 && self.reorder@[j].0 <= old(self).next_chunk
                + REORDER_CAPACITY by {
                assert(old(self).next_chunk < index);
                if j > i {
                    assert(self.reorder@[j] == old_reorder[j - 1]);
                } else if j < i {
                    assert(self.reorder@[j] == old_reorder[j]);
                }
            }
        }
        true
    }

    /// Takes a whole chunk of the current session. The awaited chunk is
    /// written; a later one within reach is held back; an earlier one, or
    /// one already held, changes nothing.
    pub fn on_chunk(&mut self, index: u32, body: Vec<u8>, now: u64) -> (r: Vec<Action>)
        requires
            old(self).wf(),
        ensures
            final(self).wf(),
            chunk_taken(old(self)@, index, body@, now, final(self)@, r@),
    {
        let mut out: Vec<Action> = Vec::new();
        if self.state != OtaState::Downloading || self.awaiting != Awaiting::Nothing {
            return out;
        }
        if index < self.next_chunk {
            return out;
        }
        if index > self.next_chunk {
            if index - self.next_chunk > REORDER_CAPACITY {
                return out;
            }
            if self.buffer_chunk(index, body) {
                self.last_chunk_ms = now;
            }
            return out;
        }
        if body.len() == 0 {
            let complete = match self.session_size {
                Some(s) => self.received == s as u64,
                None => false,
            };
            if complete {
                self.finish_download(&mut out);
            } else {
                self.fail(FailReason::EmptyChunkPremature, &mut out);
            }
            return out;
        }
        let bound = self.bound_of();
        if body.len() as u64 > bound - self.received {
            self.fail(FailReason::ChunkExceedsSize, &mut out);
            return out;
        }
        self.in_flight = copy_bytes(body.as_slice());
        proof {
            self.delivered@ = self.delivered@.insert(index, body@);
            assert forall|i: int| 0 <= i < self.committed@.len() implies #[trigger] self.committed@[i].len()
                > 0 && self.delivered@.contains_key(i as u32) && self.delivered@[i as u32]
                == self.committed@[i] by {
                assert(i as u32 != index);
            }
            assert forall|i: int| 0 <= i < self.reorder@.len() implies self.delivered@.contains_key(
                (#[trigger] self.reorder@[i]).0,
            ) && self.delivered@[self.reorder@[i].0] == self.reorder@[i].1@ by {
                assert(self.reorder@[i].0 != index);
            }
        }
        self.last_chunk_ms = now;
        self.awaiting = Awaiting::Append;
        out.push(Action::Append(body));
        out
    }

    /// Takes the outcome of appending the chunk in flight (zero for
    /// success). A written chunk is fed to the digest and counted; then the
    /// download finishes if every byte is in, or the next held-back chunk is
    /// written, or the next chunk is requested.
    pub fn on_appended(&mut self, code: i32) -> (r: Vec<Action>)
        requires
            old(self).wf(),
        ensures
            final(self).wf(),
            old(self)@.awaiting != Awaiting::Append ==> final(self)@ == old(self)@ && r@.len()
                == 0,
            old(self)@.awaiting == Awaiting::Append && code != 0 ==> failed_as(
                old(self)@,
                final(self)@,
                r@,
                FailReason::WriteFailed(code),
            ),
            old(self)@.awaiting == Awaiting::Append && code == 0 ==> {
                let o = old(self)@;
                let received = (o.received + o.in_flight.len()) as u64;
                let next = (o.next_chunk + 1) as u32;
                let base = OtaView {
                    awaiting: Awaiting::Nothing,
                    committed: o.committed.push(o.in_flight),
                    digest_input: o.digest_input + o.in_flight,
                    received,
                    next_chunk: next,
                    in_flight: Seq::empty(),
                    ..o
                };
                if complete(o.session_size, received) {
                    &&& final(self)@ == (OtaView {
                        state: OtaState::Downloaded,
                        awaiting: Awaiting::End,
                        buffered: Seq::empty(),
                        heartbeat: 0,
                        ..base
                    })
                    &&& r@.len() == 2
                    &&& reports(
                        r@[0],
                        OtaState::Downloaded,
                        o.current_title,
                        o.current_version,
                        received,
                        o.session_size,
                    )
                    &&& r@[1] == Action::EndWrite
                } else if o.buffered.len() > 0 && o.buffered[0].0 == next {
                    if o.buffered[0].1.len() == 0 {
                        failed_as(base, final(self)@, r@, FailReason::EmptyChunkPremature)
                    } else if received + o.buffered[0].1.len() > byte_bound(o.session_size) {
                        failed_as(base, final(self)@, r@, FailReason::ChunkExceedsSize)
                    } else {
                        &&& final(self)@ == (OtaView {
                            awaiting: Awaiting::Append,
                            in_flight: o.buffered[0].1,
                            buffered: o.buffered.drop_first(),
                            ..base
                        })
                        &&& r@.len() == 1
                        &&& r@[0] matches Action::Append(v) && v@ == o.buffered[0].1
                    }
                } else {
                    &&& final(self)@ == (OtaView {
                        awaiting: Awaiting::Request,
                        pipeline_next: if next < u32::MAX {
                            (next + 1) as u32
                        } else {
                            next
                        },
                        pipeline_left: 0,
                        ..base
                    })
                    &&& r@.len() == 1
                    &&& requests(r@[0], o.session_id, next)
                }
            },
    {
        let mut out: Vec<Action> = Vec::new();
        if self.awaiting != Awaiting::Append {
            return out;
        }
        if code != 0 {
            self.fail(FailReason::WriteFailed(code), &mut out);
            return out;
        }
        let ghost o = self@;
        self.hasher.update(self.in_flight.as_slice());
        self.received = self.received + self.in_flight.len() as u64;
        self.next_chunk = self.next_chunk + 1;
        proof {
            o.committed.lemma_flatten_push(o.in_flight);
            self.committed@ = o.committed.push(o.in_flight);
            assert forall|i: int| 0 <= i < self.committed@.len() implies #[trigger] self.committed@[i].len()
                > 0 && self.delivered@.contains_key(i as u32) && self.delivered@[i as u32]
                == self.committed@[i] by {
                if i < o.committed.len() {
                    assert(self.committed@[i] == o.committed[i]);
                }
            }
        }
        self.in_flight = Vec::new();
        self.awaiting = Awaiting::Nothing;
        assert(self.wf_core());
        let complete = match self.session_size {
            Some(s) => self.received == s as u64,
            None => false,
        };
        if complete {
            self.finish_download(&mut out);
            return out;
        }
        if self.reorder.len() > 0 && self.reorder[0].0 == self.next_chunk {
            let ghost before = self.reorder@;
            let (_, head) = self.reorder.remove(0);
            proof {
                assert forall|i: int| 0 <= i < self.reorder@.len() implies self.next_chunk < (
                #[trigger] self.reorder@[i]).0 by {
                    assert(self.reorder@[i] == before[i + 1]);
                    assert(before[0].0 < before[i + 1].0);
                }
                assert(self@.buffered =~= o.buffered.drop_first());
            }
            if head.len() == 0 {
                self.fail(FailReason::EmptyChunkPremature, &mut out);
                return out;
            }
            let bound = self.bound_of();
            if head.len() as u64 > bound - self.received {
                self.fail(FailReason::ChunkExceedsSize, &mut out);
                return out;
            }
            self.in_flight = copy_bytes(head.as_slice());
            self.awaiting = Awaiting::Append;
            out.push(Action::Append(head));
            return out;
        }
        proof {
            assert forall|i: int| 0 <= i < self.reorder@.len() implies self.next_chunk < (
            #[trigger] self.reorder@[i]).0 by {
                if self.reorder@[i].0 == self.next_chunk {
                    assert(self.reorder@[0].0 <= self.reorder@[i].0);
                    if i > 0 {
                        assert(self.reorder@[0].0 < self.reorder@[i].0);
                    }
                }
            }
        }
        self.request_chunks(self.next_chunk, 1, &mut out);
        out
    }

    /// Takes the outcome of finishing the write (zero for success). On
    /// success the digest of the written bytes is checked against the
    /// session's checksum, trimmed and ignoring letter case; if they agree the new slot is made the boot target.
    pub fn on_write_ended(&mut self, code: i32) -> (r: Vec<Action>)
        requires
            old(self).wf(),
        ensures
            final(self).wf(),
            old(self)@.awaiting != Awaiting::End ==> final(self)@ == old(self)@ && r@.len() == 0,
            old(self)@.awaiting == Awaiting::End && code != 0 ==> failed_as(
                old(self)@,
                final(self)@,
                r@,
                FailReason::EndFailed(code),
            ),
            old(self)@.awaiting == Awaiting::End && code == 0 ==> {
                let o = old(self)@;
                let verifying = OtaView {
                    state: OtaState::Verifying,
                    awaiting: Awaiting::Nothing,
                    heartbeat: 0,
                    ..o
                };
                &&& r@.len() >= 2
                &&& reports(
                    r@[0],
                    OtaState::Verifying,
                    o.current_title,
                    o.current_version,
                    o.received,
                    o.session_size,
                )
                &&& match o.session_checksum {
                    None => failed_as(verifying, final(self)@, r@.drop_first(), FailReason::NoChecksum),
                    Some(c) => if checksum_agrees(sha256_of(o.digest_input), encode_utf8(trim_of(c))) {
                        &&& final(self)@ == (OtaView {
                            state: OtaState::Updating,
                            awaiting: Awaiting::SetBoot,
                            heartbeat: 0,
                            ..o
                        })
                        &&& r@.len() == 3
                        &&& reports(
                            r@[1],
                            OtaState::Updating,
                            o.current_title,
                            o.current_version,
                            o.received,
                            o.session_size,
                        )
                        &&& r@[2] == Action::SetBoot(o.target_slot.unwrap())
                    } else {
                        failed_as(
                            verifying,
                            final(self)@,
                            r@.drop_first(),
                            FailReason::ChecksumMismatch,
                        )
                    },
                }
            },
    {
        let mut out: Vec<Action> = Vec::new();
        if self.awaiting != Awaiting::End {
            return out;
        }
        if code != 0 {
            self.fail(FailReason::EndFailed(code), &mut out);
            return out;
        }
        self.awaiting = Awaiting::Nothing;
        self.state = OtaState::Verifying;
        self.heartbeat_report(&mut out);
        let ghost verifying = self@;
        let agrees = match &self.session_checksum {
            None => {
                self.fail(FailReason::NoChecksum, &mut out);
                assert(out@.drop_first() =~= seq![out@[1]]);
                return out;
            },
            Some(c) => {
                let digest = self.hasher.digest();
                let expected = trim_text(c.as_str());
                checksum_matches(digest.as_slice(), expected.as_str().as_bytes())
            },
        };
        if !agrees {
            self.fail(FailReason::ChecksumMismatch, &mut out);
            assert(out@.drop_first() =~= seq![out@[1]]);
            return out;
        }
        let slot = match self.target_slot {
            Some(s) => s,
            None => {
                return out;
            },
        };
        self.state = OtaState::Updating;
        self.heartbeat_report(&mut out);
        self.awaiting = Awaiting::SetBoot;
        out.push(Action::SetBoot(slot));
        out
    }

    /// Takes the outcome of making the new slot the boot target (zero for
    /// success). On success the new image becomes the current one, the
    /// update is reported, and the device is restarted.
    pub fn on_boot_set(&mut self, code: i32) -> (r: Vec<Action>)
        requires
            old(self).wf(),
        ensures
            final(self).wf(),
            old(self)@.awaiting != Awaiting::SetBoot ==> final(self)@ == old(self)@ && r@.len()
                == 0,
            old(self)@.awaiting == Awaiting::SetBoot && code != 0 ==> failed_as(
                old(self)@,
                final(self)@,
                r@,
                FailReason::SetBootFailed(code),
            ),
            old(self)@.awaiting == Awaiting::SetBoot && code == 0 ==> {
                let o = old(self)@;
                &&& final(self)@ == (OtaView {
                    state: OtaState::Updated,
                    awaiting: Awaiting::Nothing,
                    current_title: o.session_title,
                    current_version: o.session_version,
                    heartbeat: 0,
                    ..o
                })
                &&& r@.len() == 2
                &&& reports(
                    r@[0],
                    OtaState::Updated,
                    o.session_title,
                    o.session_version,
                    o.received,
                    o.session_size,
                )
                &&& r@[1] == Action::Reboot
            },
    {
        let mut out: Vec<Action> = Vec::new();
        if self.awaiting != Awaiting::SetBoot {
            return out;
        }
        if code != 0 {
            self.fail(FailReason::SetBootFailed(code), &mut out);
            return out;
        }
        self.awaiting = Awaiting::Nothing;
        self.current_title = self.session_title.clone();
        self.current_version = self.session_version.clone();
        self.state = OtaState::Updated;
        self.heartbeat_report(&mut out);
        out.push(Action::Reboot);
        out
    }

    /// One turn of the device loop at time `now` (milliseconds). While
    /// downloading, the progress is reported every `HEARTBEAT_INTERVAL`
    /// turns, and a chunk awaited for more than `CHUNK_TIMEOUT_MS` is
    /// requested again. In other states a turn does nothing: they are
    /// reported when they are entered.
    pub fn on_tick(&mut self, now: u64) -> (r: Vec<Action>)
        requires
            old(self).wf(),
        ensures
            final(self).wf(),
            old(self)@.awaiting != Awaiting::Nothing || old(self)@.state != OtaState::Downloading
                ==> final(self)@ == old(self)@ && r@.len() == 0,
            old(self)@.awaiting == Awaiting::Nothing && old(self)@.state == OtaState::Downloading
                ==> {
                let o = old(self)@;
                let count = if o.heartbeat < u32::MAX {
                    o.heartbeat + 1
                } else {
                    o.heartbeat as int
                };
                let quiet = count < HEARTBEAT_INTERVAL;
                let timed_out = now > o.last_chunk_ms && now - o.last_chunk_ms > CHUNK_TIMEOUT_MS;
                let reported = OtaView {
                    heartbeat: if quiet {
                        count as u32
                    } else {
                        0
                    },
                    ..o
                };
                let sent = if quiet {
                    0int
                } else {
                    1
                };
                &&& !quiet ==> reports(
                    r@[0],
                    o.state,
                    o.current_title,
                    o.current_version,
                    o.received,
                    o.session_size,
                )
                &&& if timed_out {
                    &&& final(self)@ == (OtaView {
                        awaiting: Awaiting::Request,
                        last_chunk_ms: now,
                        pipeline_next: if o.next_chunk < u32::MAX {
                            (o.next_chunk + 1) as u32
                        } else {
                            o.next_chunk
                        },
                        pipeline_left: 0,
                        ..reported
                    })
                    &&& r@.len() == sent + 1
                    &&& requests(r@.last(), o.session_id, o.next_chunk)
                } else {
                    final(self)@ == reported && r@.len() == sent
                }
            },
    {
        let mut out: Vec<Action> = Vec::new();
        if self.awaiting != Awaiting::Nothing || self.state != OtaState::Downloading {
            return out;
        }
        let timed_out = now > self.last_chunk_ms && now - self.last_chunk_ms > CHUNK_TIMEOUT_MS;
        self.heartbeat_report(&mut out);
        if timed_out {
            self.last_chunk_ms = now;
            self.request_chunks(self.next_chunk, 1, &mut out);
        }
        out
    }

    /// Asks the server for the advertised image: a publish on the next
    /// attribute request topic (the counter stops at its largest value).
    pub fn request_firmware_info(&mut self) -> (r: Action)
        ensures
            final(self).wf() == old(self).wf(),
            ({
                let id = if old(self)@.attr_request_id < u32::MAX {
                    (old(self)@.attr_request_id + 1) as u32
                } else {
                    old(self)@.attr_request_id
                };
                &&& final(self)@ == (OtaView { attr_request_id: id, ..old(self)@ })
                &&& r matches Action::Publish { topic, payload } && topic@
                    == attribute_request_topic_of(id) && payload@ == FIRMWARE_INFO_REQUEST_BODY@
            }),
    {
        if self.attr_request_id < u32::MAX {
            self.attr_request_id = self.attr_request_id + 1;
        }
        Action::Publish {
            topic: attribute_request_topic(self.attr_request_id),
            payload: String::from_str(FIRMWARE_INFO_REQUEST_BODY),
        }
    }

    /// Takes one inbound message, or one fragment of it: attribute responses
    /// are parsed and taken as an update; fragments of a chunk of the current
    /// session are gathered and the whole chunk is taken; everything else,
    /// chunks of other sessions included, changes nothing.
    pub fn on_message(
        &mut self,
        topic: &[u8],
        offset: usize,
        data: &[u8],
        total: usize,
        now: u64,
    ) -> (r: Vec<Action>)
        requires
            old(self).wf(),
        ensures
            final(self).wf(),
            match route_of(topic@) {
                Inbound::FirmwareChunk { session, index } => if session != old(self)@.session_id {
                    final(self)@ == old(self)@ && r@.len() == 0
                } else {
                    let (gathered, whole) = feed_of(
                        old(self)@.assembling,
                        offset as nat,
                        data@,
                        total as nat,
                    );
                    match whole {
                        None => final(self)@ == (OtaView { assembling: gathered, ..old(self)@ })
                            && r@.len() == 0,
                        Some(body) => chunk_taken(
                            OtaView { assembling: gathered, ..old(self)@ },
                            index,
                            body,
                            now,
                            final(self)@,
                            r@,
                        ),
                    }
                },
                Inbound::AttributesResponse => match update_of(data@) {
                    None => final(self)@ == old(self)@ && r@.len() == 0,
                    Some(u) => attributes_step(old(self)@, u, now, final(self)@, r@),
                },
                _ => final(self)@ == old(self)@ && r@.len() == 0,
            },
    {
        match route(topic) {
            Inbound::FirmwareChunk { session, index } => {
                if session != self.session_id {
                    return Vec::new();
                }
                match self.assembler.feed(offset, data, total) {
                    None => Vec::new(),
                    Some(body) => self.on_chunk(index, body, now),
                }
            },
            Inbound::AttributesResponse => match parse_attributes(data) {
                Some(update) => match self.on_attributes(update, now) {
                    Ok(out) => out,
                    Err(_) => Vec::new(),
                },
                None => Vec::new(),
            },
            _ => Vec::new(),
        }
    }

    pub fn state(&self) -> (r: OtaState)
        ensures
            r == self@.state,
    {
        self.state
    }

    pub fn awaiting(&self) -> (r: Awaiting)
        ensures
            r == self@.awaiting,
    {
        self.awaiting
    }

    pub fn session_id(&self) -> (r: u32)
        ensures
            r == self@.session_id,
    {
        self.session_id
    }

    pub fn attr_request_id(&self) -> (r: u32)
        ensures
            r == self@.attr_request_id,
    {
        self.attr_request_id
    }

    pub fn next_chunk_index(&self) -> (r: u32)
        ensures
            r == self@.next_chunk,
    {
        self.next_chunk
    }

    pub fn received_bytes(&self) -> (r: u64)
        ensures
            r == self@.received,
    {
        self.received
    }

    pub fn buffered_count(&self) -> (r: usize)
        ensures
            r == self@.buffered.len(),
    {
        self.reorder.len()
    }

    pub fn current_title(&self) -> (r: &String)
        ensures
            r@ == self@.current_title,
    {
        &self.current_title
    }

    pub fn current_version(&self) -> (r: &String)
        ensures
            r@ == self@.current_version,
    {
        &self.current_version
    }

    pub fn target_slot(&self) -> (r: Option<u32>)
        ensures
            r == self@.target_slot,
    {
        self.target_slot
    }

    pub fn last_chunk_ms(&self) -> (r: u64)
        ensures
            r == self@.last_chunk_ms,
    {
        self.last_chunk_ms
    }

    /// The report of the current state, as published on the telemetry topic.
    pub fn telemetry(&self) -> (r: TelemetryReport)
        ensures
            reports(
                Action::Telemetry(r),
                self@.state,
                self@.current_title,
                self@.current_version,
                self@.received,
                self@.session_size,
            ),
    {
        self.report()
    }
}

/// Within a session the bytes received never pass the advertised size; once
/// the download is complete they equal it, and while downloading a non-empty
/// image they stay below it.
pub proof fn lemma_received_within_size(c: &OtaController)
    requires
        c.wf(),
    ensures
        c@.session_size matches Some(s) ==> c@.received <= s,
        (c@.state == OtaState::Downloaded || c@.state == OtaState::Verifying || c@.state
            == OtaState::Updating || c@.state == OtaState::Updated) ==> c@.session_size == Some(
            c@.received as u32,
        ),
        c@.state == OtaState::Downloading && c@.session_size.is_some() && c@.session_size.unwrap()
            > 0 ==> c@.received < c@.session_size.unwrap(),
{
}

/// The digest has consumed exactly the written chunks, concatenated in
/// order; the byte count is their total length, and the next chunk index is
/// their number.
pub proof fn lemma_digest_follows_chunks(c: &OtaController)
    requires
        c.wf(),
    ensures
        c@.digest_input == c@.committed.flatten(),
        c@.received == c@.committed.flatten().len(),
        c@.next_chunk == c@.committed.len(),
{
}

/// The slot being written is never the running one.
pub proof fn lemma_target_not_running(c: &OtaController)
    requires
        c.wf(),
    ensures
        c@.target_slot matches Some(t) ==> c@.running_slot matches Some(run) && t != run,
{
}

/// What has been written is the body taken for each index, in index order,
/// whatever order the chunks arrived in; held-back chunks keep the body they
/// were taken with.
pub proof fn lemma_written_by_index(c: &OtaController)
    requires
        c.wf(),
    ensures
        c@.committed == Seq::new(c@.committed.len(), |i: int| c@.delivered[i as u32]),
        forall|i: int|
            0 <= i < c@.buffered.len() ==> c@.delivered[(#[trigger] c@.buffered[i]).0]
                == c@.buffered[i].1,
{
    assert forall|i: int| 0 <= i < c@.committed.len() implies #[trigger] c@.committed[i]
        == Seq::new(c@.committed.len(), |k: int| c@.delivered[k as u32])[i] by {
        assert(c.committed@[i].len() > 0);
    }
    assert(c@.committed =~= Seq::new(c@.committed.len(), |i: int| c@.delivered[i as u32]));
    assert forall|i: int| 0 <= i < c@.buffered.len() implies c@.delivered[(
    #[trigger] c@.buffered[i]).0] == c@.buffered[i].1 by {
        assert(c@.buffered[i] == (c.reorder@[i].0, c.reorder@[i].1@));
    }
}

/// A chunk that was already written, is already held back, or is being
/// written, changes nothing when it arrives again, whatever its body.
pub proof fn lemma_replay_changes_nothing(
    c: &OtaController,
    index: u32,
    body: Seq<u8>,
    now: u64,
    after: OtaView,
    r: Seq<Action>,
)
    requires
        c.wf(),
        index < c@.next_chunk || holds_index(c@.buffered, index) || c@.awaiting
            == Awaiting::Append,
        chunk_taken(c@, index, body, now, after, r),
    ensures
        after == c@,
        r.len() == 0,
{
    if holds_index(c@.buffered, index) {
        let i = choose|i: int| 0 <= i < c@.buffered.len() && (#[trigger] c@.buffered[i]).0 == index;
        assert(c.reorder@[i].0 == index);
    }
}


/// Session identifiers never go down. An attribute update opens a session,
/// with the next identifier, exactly when it names a new image and an
/// identifier is left; the new session starts with nothing received,
/// buffered, written or digested, and first asks for a flash slot.
pub proof fn lemma_attributes_open_sessions(
    o: OtaView,
    u: DescriptorView,
    now: u64,
    after: OtaView,
    out: Seq<Action>,
)
    requires
        attributes_step(o, u, now, after, out),
    ensures
        after.session_id >= o.session_id,
        (after.session_id == o.session_id + 1) == (names_new_image(o, u) && o.session_id
            < u32::MAX),
        after.session_id != o.session_id ==> {
            &&& after.state == OtaState::Downloading
            &&& after.next_chunk == 0
            &&& after.received == 0
            &&& after.buffered.len() == 0
            &&& after.committed.len() == 0
            &&& after.digest_input.len() == 0
            &&& after.heartbeat == 0
            &&& out == seq![Action::SelectSlot]
        },
        after.session_id == o.session_id ==> out.len() == 0,
{
}

/// Two sessions that have taken the same body for each chunk index below
/// the next awaited one, in whatever order the chunks arrived, have written
/// the same bytes and fed the digest the same input.
pub proof fn lemma_arrival_order_irrelevant(a: &OtaController, b: &OtaController)
    requires
        a.wf(),
        b.wf(),
        a@.next_chunk == b@.next_chunk,
        forall|i: u32| i < a@.next_chunk ==> #[trigger] a@.delivered[i] == b@.delivered[i],
    ensures
        a@.committed == b@.committed,
        a@.digest_input == b@.digest_input,
        a@.received == b@.received,
{
    assert forall|i: int| 0 <= i < a@.committed.len() implies #[trigger] a@.committed[i]
        == b@.committed[i] by {
        assert(a.committed@[i].len() > 0);
        assert(b.committed@[i].len() > 0);
        assert(a@.delivered[i as u32] == b@.delivered[i as u32]);
    }
    assert(a@.committed =~= b@.committed);
}

} // verus!
