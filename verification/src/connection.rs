//! The connection engine: preface and settings handshake, frame dispatch,
//! the CONTINUATION lock, connection-level flow control, and admission of
//! outgoing requests. The engine is transport-agnostic: bytes received go
//! in through `receive`, bytes to send come out of `take_write_buf`, and
//! completed responses come back tagged with their stream identifier.

use vstd::prelude::*;

use crate::frame::FrameHeader;
use crate::frame::FramePayload;
use crate::frame::FrameError;
use crate::frame::PayloadView;
use crate::frame::spec_frame_bytes;
use crate::frame::spec_u24_be;
use crate::frame::spec_has_flag;
use crate::frame::has_flag;
use crate::frame::subvec;
use crate::frame::FLAG_ACK;
use crate::frame::FLAG_END_HEADERS;
use crate::frame::FLAG_END_STREAM;
use crate::hpack::Decoder;
use crate::hpack::Encoder;
use crate::response::Response;
use crate::stream::Continuing;
use crate::stream::Stream;
use crate::stream::StreamState;
use crate::stream::spec_transition;
use crate::hpack::spec_headers_view;
use crate::hpack::spec_dec_block;
use crate::stream_coordinator::StreamCoordinator;
use crate::stream_coordinator::spec_find_stream;
use crate::stream_coordinator::spec_ids_unique;
use crate::stream_coordinator::lemma_get_mut_find;
use crate::stream_coordinator::lemma_put_back_find;
use crate::request::Request;
use crate::request::spec_request_header_list;
use crate::types::ErrorType;
use crate::types::RequestError;
use crate::types::FrameType;
use crate::types::SettingsParameter;
use crate::types::StreamId;
use crate::types::U31_MAX;

verus! {

/// The 24-octet client connection preface.
pub open spec fn spec_preface() -> Seq<u8> {
    seq![
        0x50u8, 0x52, 0x49, 0x20, 0x2a, 0x20, 0x48, 0x54, 0x54, 0x50, 0x2f, 0x32, 0x2e, 0x30, 0x0d,
        0x0a, 0x0d, 0x0a, 0x53, 0x4d, 0x0d, 0x0a, 0x0d, 0x0a,
    ]
}

/// The settings a peer has signaled, with the protocol's initial values
/// until it signals otherwise.
#[derive(Debug, Clone, Copy, PartialEq, Eq, Structural)]
pub struct Settings {
    pub header_table_size: u32,
    pub enable_push: u32,
    pub max_concurrent_streams: u32,
    pub initial_window_size: u32,
    pub max_frame_size: u32,
    pub max_header_list_size: u32,
}

impl Settings {
    /// The protocol's initial values.
    pub open spec fn spec_initial() -> Settings {
        Settings {
            header_table_size: 4096,
            enable_push: 1,
            max_concurrent_streams: 0xffffffffu32,
            initial_window_size: 65535,
            max_frame_size: 16384,
            max_header_list_size: 0xffffffffu32,
        }
    }

    /// The signaled values stay inside the ranges RFC 7540 §6.5.2 allows.
    pub open spec fn wf(self) -> bool {
        &&& self.initial_window_size <= U31_MAX
        &&& 16384 <= self.max_frame_size < 0x1000000
        &&& self.enable_push <= 1
    }

    pub fn initial() -> (r: Settings)
        ensures
            r == Settings::spec_initial(),
            r.wf(),
    {
        Settings {
            header_table_size: 4096,
            enable_push: 1,
            max_concurrent_streams: 0xffffffffu32,
            initial_window_size: 65535,
            max_frame_size: 16384,
            max_header_list_size: 0xffffffffu32,
        }
    }

    /// One parameter applied, or the connection error an illegal value
    /// raises: a window above `2^31 - 1` is a FLOW_CONTROL_ERROR, a frame
    /// size outside its range or a push value other than 0 or 1 a
    /// PROTOCOL_ERROR.
    pub open spec fn spec_apply_one(self, p: SettingsParameter, v: u32) -> Result<
        Settings,
        ErrorType,
    > {
        match p {
            SettingsParameter::HeaderTableSize => Ok(Settings { header_table_size: v, ..self }),
            SettingsParameter::EnablePush => {
                if v > 1 {
                    Err(ErrorType::ProtocolError)
                } else {
                    Ok(Settings { enable_push: v, ..self })
                }
            },
            SettingsParameter::MaxConcurrentStreams => Ok(
                Settings { max_concurrent_streams: v, ..self },
            ),
            SettingsParameter::InitialWindowSize => {
                if v > U31_MAX {
                    Err(ErrorType::FlowControlError)
                } else {
                    Ok(Settings { initial_window_size: v, ..self })
                }
            },
            SettingsParameter::MaxFrameSize => {
                if v < 16384 || v >= 0x1000000 {
                    Err(ErrorType::ProtocolError)
                } else {
                    Ok(Settings { max_frame_size: v, ..self })
                }
            },
            SettingsParameter::MaxHeaderListSize => Ok(Settings { max_header_list_size: v, ..self }),
        }
    }

    /// A parameter list applied left to right, the last occurrence winning.
    pub open spec fn spec_apply(self, params: Seq<(SettingsParameter, u32)>) -> Result<
        Settings,
        ErrorType,
    >
        decreases params.len(),
    {
        if params.len() == 0 {
            Ok(self)
        } else {
            match self.spec_apply_one(params[0].0, params[0].1) {
                Ok(s2) => s2.spec_apply(params.skip(1)),
                Err(e) => Err(e),
            }
        }
    }

    /// Applies a received parameter list.
    pub fn apply(&mut self, params: &Vec<(SettingsParameter, u32)>) -> (r: Result<(), ErrorType>)
        ensures
            old(self).wf() ==> final(self).wf(),
            ({
                let spec = old(self).spec_apply(params@);
                match r {
                    Ok(()) => spec == Ok::<Settings, ErrorType>(*final(self)),
                    Err(e) => spec == Err::<Settings, ErrorType>(e),
                }
            }),
    {
        let mut i: usize = 0;
        assert(params@.skip(0) =~= params@);
        while i < params.len()
            invariant
                i <= params@.len(),
                old(self).wf() ==> self.wf(),
                old(self).spec_apply(params@) == self.spec_apply(params@.skip(i as int)),
            decreases params@.len() - i,
        {
            let ghost tail = params@.skip(i as int);
            assert(tail[0] == params@[i as int]);
            assert(tail.skip(1) =~= params@.skip(i as int + 1));
            let (p, v) = params[i];
            match p {
                SettingsParameter::HeaderTableSize => {
                    self.header_table_size = v;
                },
                SettingsParameter::EnablePush => {
                    if v > 1 {
                        return Err(ErrorType::ProtocolError);
                    }
                    self.enable_push = v;
                },
                SettingsParameter::MaxConcurrentStreams => {
                    self.max_concurrent_streams = v;
                },
                SettingsParameter::InitialWindowSize => {
                    if v > U31_MAX {
                        return Err(ErrorType::FlowControlError);
                    }
                    self.initial_window_size = v;
                },
                SettingsParameter::MaxFrameSize => {
                    if v < 16384 || v >= 0x1000000 {
                        return Err(ErrorType::ProtocolError);
                    }
                    self.max_frame_size = v;
                },
                SettingsParameter::MaxHeaderListSize => {
                    self.max_header_list_size = v;
                },
            }
            i = i + 1;
        }
        assert(params@.skip(params@.len() as int) =~= Seq::<(SettingsParameter, u32)>::empty());
        Ok(())
    }

    /// Applying legal parameters preserves the ranges.
    pub proof fn lemma_apply_wf(pre: Settings, params: Seq<(SettingsParameter, u32)>)
        requires
            pre.wf(),
        ensures
            pre.spec_apply(params) matches Ok(s2) ==> s2.wf(),
        decreases params.len(),
    {
        if params.len() > 0 {
            match pre.spec_apply_one(params[0].0, params[0].1) {
                Ok(s2) => {
                    Settings::lemma_apply_wf(s2, params.skip(1));
                },
                Err(_) => {},
            }
        }
    }
}

/// The connection-wide mutable state: the peer's settings, the
/// connection-level send window, the HPACK contexts, the read and write
/// buffers, the pending frame header, the handshake marker, the
/// CONTINUATION lock and the GOAWAY record.
pub struct ConnectionState {
    pub their_settings: Settings,
    pub window_remaining: i64,
    pub header_encoder: Encoder,
    pub header_decoder: Decoder,
    pub read_buf: Vec<u8>,
    pub read_pos: usize,
    pub write_buf: Vec<u8>,
    pub header: Option<FrameHeader>,
    pub ready: bool,
    pub continuation: Option<(StreamId, Continuing)>,
    pub goaway: Option<(StreamId, ErrorType)>,
    pub last_peer_stream: StreamId,
    pub window_base: Ghost<int>,
    pub conn_wu_received: Ghost<int>,
    pub conn_data_sent: Ghost<int>,
}

impl ConnectionState {
    /// The settings stay legal, the pending header well formed, the read
    /// cursor inside the buffer, the decoder consistent, and the
    /// connection window inside the signed 31-bit range and equal to what
    /// the peer seeded plus every WINDOW_UPDATE received minus every DATA
    /// octet sent.
    pub open spec fn wf(self) -> bool {
        &&& self.their_settings.wf()
        &&& self.header_decoder.wf()
        &&& self.read_pos <= self.read_buf@.len()
        &&& (self.header matches Some(h) ==> h.wf())
        &&& self.last_peer_stream <= U31_MAX
        &&& -(U31_MAX as int) <= self.window_remaining as int <= U31_MAX as int
        &&& self.window_remaining as int == self.window_base@ + self.conn_wu_received@
            - self.conn_data_sent@
    }
}

impl Default for ConnectionState {
    /// The state of a fresh connection, before the peer's settings arrive.
    fn default() -> (r: ConnectionState)
        ensures
            r.wf(),
            r.their_settings == Settings::spec_initial(),
            r.window_remaining == 65535i64,
            r.read_buf@ =~= Seq::<u8>::empty(),
            r.read_pos == 0,
            r.write_buf@ =~= Seq::<u8>::empty(),
            r.header is None,
            !r.ready,
            r.continuation is None,
            r.goaway is None,
            r.last_peer_stream == 0,
    {
        ConnectionState {
            their_settings: Settings::initial(),
            window_remaining: 65535,
            header_encoder: Encoder::with_size(4096),
            header_decoder: Decoder::with_size(4096),
            read_buf: Vec::new(),
            read_pos: 0,
            write_buf: Vec::new(),
            header: None,
            ready: false,
            continuation: None,
            goaway: None,
            last_peer_stream: 0,
            window_base: Ghost(65535int),
            conn_wu_received: Ghost(0),
            conn_data_sent: Ghost(0),
        }
    }
}

/// The wire image of a PING acknowledgement echoing `data`.
pub open spec fn spec_ping_ack(data: Seq<u8>) -> Seq<u8> {
    spec_frame_bytes(PayloadView::Ping { data }, FLAG_ACK, 0)
}

/// The wire image of an empty SETTINGS acknowledgement.
pub open spec fn spec_settings_ack() -> Seq<u8> {
    spec_frame_bytes(PayloadView::Settings { params: Seq::empty() }, FLAG_ACK, 0)
}

/// The wire image of a WINDOW_UPDATE.
pub open spec fn spec_window_update(id: StreamId, increment: u32) -> Seq<u8> {
    spec_frame_bytes(PayloadView::WindowUpdate { increment }, 0, id)
}

/// The wire image of a RST_STREAM.
pub open spec fn spec_rst_stream(id: StreamId, error: ErrorType) -> Seq<u8> {
    spec_frame_bytes(PayloadView::ResetStream { error }, 0, id)
}

/// The wire image of a GOAWAY with no debug data.
pub open spec fn spec_goaway(last_stream: StreamId, error: ErrorType) -> Seq<u8> {
    spec_frame_bytes(
        PayloadView::GoAway { last_stream, error, debug: Seq::empty() },
        0,
        0,
    )
}

/// The engine for one connection: the shared state and the streams.
pub struct Connection {
    pub state: ConnectionState,
    pub streams: StreamCoordinator,
}

impl Connection {
    /// Everything holds together: the shared state, the coordinator, and
    /// every stream's flow-control accounting.
    pub open spec fn wf(self) -> bool {
        &&& self.state.wf()
        &&& self.streams.wf()
    }

    /// A fresh engine with the startup bytes already queued: the 24-octet
    /// client preface, then an initial SETTINGS frame that disables server
    /// push and raises the stream window to `2^31 - 1`.
    pub fn new() -> (r: Connection)
        ensures
            r.wf(),
            !r.state.ready,
            r.streams.next_id == 3,
            r.streams.streams@.len() == 0,
            r.state.their_settings == Settings::spec_initial(),
            r.state.window_remaining == 65535i64,
            r.state.continuation is None,
            r.state.goaway is None,
            r.state.header is None,
            r.state.read_buf@ =~= Seq::<u8>::empty(),
            r.state.read_pos == 0,
            r.state.last_peer_stream == 0,
            r.state.write_buf@ == spec_preface() + spec_frame_bytes(
                PayloadView::Settings {
                    params: seq![
                        (SettingsParameter::EnablePush, 0u32),
                        (SettingsParameter::InitialWindowSize, U31_MAX),
                    ],
                },
                0,
                0,
            ),
    {
        let mut state = ConnectionState::default();
        let preface: [u8; 24] = [
            0x50, 0x52, 0x49, 0x20, 0x2a, 0x20, 0x48, 0x54, 0x54, 0x50, 0x2f, 0x32, 0x2e, 0x30,
            0x0d, 0x0a, 0x0d, 0x0a, 0x53, 0x4d, 0x0d, 0x0a, 0x0d, 0x0a,
        ];
        let mut i: usize = 0;
        while i < 24
            invariant
                i <= 24,
                preface@ =~= spec_preface(),
                state.write_buf@ =~= spec_preface().subrange(0, i as int),
                state.wf(),
                state.their_settings == Settings::spec_initial(),
                !state.ready,
                state.read_pos == 0,
                state.read_buf@ =~= Seq::<u8>::empty(),
                state.header is None,
                state.continuation is None,
                state.goaway is None,
                state.window_remaining == 65535i64,
                state.last_peer_stream == 0,
            decreases 24 - i,
        {
            state.write_buf.push(preface[i]);
            assert(state.write_buf@ =~= spec_preface().subrange(0, i as int + 1));
            i = i + 1;
        }
        assert(state.write_buf@ =~= spec_preface());
        let mut params: Vec<(SettingsParameter, u32)> = Vec::new();
        params.push((SettingsParameter::EnablePush, 0));
        params.push((SettingsParameter::InitialWindowSize, U31_MAX));
        assert(params@ =~= seq![
            (SettingsParameter::EnablePush, 0u32),
            (SettingsParameter::InitialWindowSize, U31_MAX),
        ]);
        let payload = FramePayload::Settings { params };
        assert(payload@ == (PayloadView::Settings {
            params: seq![
                (SettingsParameter::EnablePush, 0u32),
                (SettingsParameter::InitialWindowSize, U31_MAX),
            ],
        }));
        proof {
            crate::frame::lemma_settings_params_round_trip(
                seq![
                    (SettingsParameter::EnablePush, 0u32),
                    (SettingsParameter::InitialWindowSize, U31_MAX),
                ],
            );
        }
        payload.write_into(&mut state.write_buf, 0, 0);
        Connection { state, streams: StreamCoordinator::new() }
    }

    /// Hands the queued outbound bytes to the transport and empties the
    /// write buffer.
    pub fn take_write_buf(&mut self) -> (r: Vec<u8>)
        requires
            old(self).wf(),
        ensures
            final(self).wf(),
            r@ == old(self).state.write_buf@,
            final(self).state.write_buf@ =~= Seq::<u8>::empty(),
            *final(self) == (Connection {
                state: ConnectionState { write_buf: final(self).state.write_buf, ..old(self).state },
                ..*old(self)
            }),
    {
        let mut out: Vec<u8> = Vec::new();
        core::mem::swap(&mut out, &mut self.state.write_buf);
        out
    }

    /// Whether the peer has told us to go away.
    pub fn goaway_received(&self) -> (r: bool)
        ensures
            r == (self.state.goaway is Some),
    {
        matches!(self.state.goaway, Some(_))
    }

    /// Whether the settings handshake has completed.
    pub fn is_ready(&self) -> (r: bool)
        ensures
            r == self.state.ready,
    {
        self.state.ready
    }
}

/// What one received frame did for a waiting caller: a completed response,
/// or the stream error that resolved the wait.
pub type StreamEvent = (StreamId, Result<Response, ErrorType>);

impl Connection {
    /// Queues a GOAWAY naming the error and the last peer stream processed;
    /// the connection is torn down once the buffer drains.
    fn queue_goaway(&mut self, error: ErrorType)
        requires
            old(self).wf(),
        ensures
            final(self).wf(),
            final(self).state.write_buf@ == old(self).state.write_buf@ + spec_goaway(
                old(self).state.last_peer_stream,
                error,
            ),
            *final(self) == (Connection {
                state: ConnectionState { write_buf: final(self).state.write_buf, ..old(self).state },
                ..*old(self)
            }),
    {
        let payload = FramePayload::GoAway {
            last_stream: self.state.last_peer_stream,
            error,
            debug: Vec::new(),
        };
        assert(payload@ == (PayloadView::GoAway {
            last_stream: self.state.last_peer_stream,
            error,
            debug: Seq::<u8>::empty(),
        }));
        payload.write_into(&mut self.state.write_buf, 0, 0);
    }

    /// Answers a stream error: queues RST_STREAM with the code and closes
    /// the stream; other streams continue undisturbed.
    fn queue_rst_stream(&mut self, id: StreamId, error: ErrorType)
        requires
            old(self).wf(),
            0 < id <= U31_MAX,
        ensures
            final(self).wf(),
            final(self).state.write_buf@ == old(self).state.write_buf@ + spec_rst_stream(
                id,
                error,
            ),
            final(self).state == (ConnectionState {
                write_buf: final(self).state.write_buf,
                ..old(self).state
            }),
            final(self).streams.next_id == old(self).streams.next_id,
            ({
                let found = spec_find_stream(old(self).streams.streams@, id);
                &&& (spec_find_stream(final(self).streams.streams@, id) matches Some(s2)
                    && s2.state == StreamState::Closed && s2.wants_response == spec_pre_wants(
                    found,
                ) && s2.body_buffer@ == spec_pre_body(found))
                &&& (forall|o: StreamId|
                    o != id ==> spec_find_stream(final(self).streams.streams@, o)
                        == spec_find_stream(old(self).streams.streams@, o))
            }),
    {
        let payload = FramePayload::ResetStream { error };
        assert(payload@ == (PayloadView::ResetStream { error }));
        payload.write_into(&mut self.state.write_buf, id, 0);
        let initial = self.state.their_settings.initial_window_size;
        let ghost s0 = self.streams.streams@;
        let i = self.streams.get_mut(id, initial);
        let ghost mid = self.streams.streams@;
        proof {
            lemma_get_mut_find(s0, mid, i as int, id, initial);
        }
        let mut s = self.streams.streams.remove(i);
        s.state = crate::stream::StreamState::Closed;
        self.streams.streams.insert(i, s);
        proof {
            assert(self.streams.streams@ =~= mid.update(i as int, self.streams.streams@[i as int]));
            lemma_put_back_find(
                mid,
                self.streams.streams@,
                i as int,
                self.streams.streams@[i as int],
            );
        }
    }

    /// Credits the connection-level send window; an increment lifting it
    /// past `2^31 - 1` is a connection FLOW_CONTROL_ERROR, so the window
    /// never exceeds that bound.
    fn credit_connection_window(&mut self, increment: u32) -> (r: Result<(), ErrorType>)
        requires
            old(self).wf(),
            0 < increment <= U31_MAX,
        ensures
            final(self).wf(),
            final(self).state.read_buf == old(self).state.read_buf && final(self).state.read_pos == old(self).state.read_pos && final(self).state.header == old(self).state.header,
            ({
                if old(self).state.window_remaining as int + increment as int <= U31_MAX as int {
                    r is Ok && final(self).state.window_remaining == old(self).state.window_remaining + increment as i64
                } else {
                    r == Err::<(), ErrorType>(ErrorType::FlowControlError)
                }
            }),
            final(self).state.write_buf == old(self).state.write_buf,
            final(self).state.continuation == old(self).state.continuation,
    {
        let next = self.state.window_remaining + increment as i64;
        if next > U31_MAX as i64 {
            return Err(ErrorType::FlowControlError);
        }
        self.state.window_remaining = next;
        proof {
            self.state.conn_wu_received@ = self.state.conn_wu_received@ + increment as int;
        }
        Ok(())
    }
}

/// The lifecycle state a frame meets: the stored stream's, or Idle for a
/// stream not seen before.
pub open spec fn spec_pre_state(found: Option<Stream>) -> StreamState {
    match found {
        Some(s) => s.state,
        None => StreamState::Idle,
    }
}

/// The open header-block kind a frame meets, if any.
pub open spec fn spec_pre_continuing(found: Option<Stream>) -> Option<Continuing> {
    match found {
        Some(s) => s.continuing,
        None => None,
    }
}

/// Whether a caller still waits on the stream a frame meets.
pub open spec fn spec_pre_wants(found: Option<Stream>) -> bool {
    match found {
        Some(s) => s.wants_response,
        None => false,
    }
}

/// The body assembled so far on the stream a frame meets.
pub open spec fn spec_pre_body(found: Option<Stream>) -> Seq<u8> {
    match found {
        Some(s) => s.body_buffer@,
        None => Seq::empty(),
    }
}

/// The header fragment assembled so far on the stream a frame meets.
pub open spec fn spec_pre_headers_buf(found: Option<Stream>) -> Seq<u8> {
    match found {
        Some(s) => s.headers_buffer@,
        None => Seq::empty(),
    }
}

/// The headers decoded so far on the stream a frame meets.
pub open spec fn spec_pre_resp_headers(found: Option<Stream>) -> Seq<(Seq<u8>, Seq<u8>)> {
    match found {
        Some(s) => spec_headers_view(s.response_headers@),
        None => Seq::empty(),
    }
}

/// The send window of the stream a frame meets; a stream not seen before
/// is seeded with the peer's initial window size.
pub open spec fn spec_pre_window(found: Option<Stream>, initial: u32) -> i64 {
    match found {
        Some(s) => s.window_remaining,
        None => initial as i64,
    }
}

/// The remembered priority dependency of the stream a frame meets.
pub open spec fn spec_pre_dependency(found: Option<Stream>) -> Option<StreamId> {
    match found {
        Some(s) => s.dependency,
        None => None,
    }
}

/// What DATA for a stream does, RFC 7540 §6.1 and §5.2, over the stream
/// the identifier resolves to before the call (Idle and fresh when it
/// resolves to none). The lifecycle transition decides: a stream error is
/// answered with RST_STREAM, closes the stream, resolves its waiting
/// caller and leaves every other stream alone; otherwise the payload joins
/// the assembled body, both flow-control windows are replenished by one
/// WINDOW_UPDATE each carrying the frame's whole length, and END_STREAM
/// completes the response a caller waits for.
pub open spec fn spec_on_data_post(
    pre: Connection,
    post: Connection,
    header: FrameHeader,
    data: Seq<u8>,
    r: Result<Option<StreamEvent>, ErrorType>,
) -> bool {
    let id = header.stream_id;
    let found = spec_find_stream(pre.streams.streams@, id);
    let wanted = spec_pre_wants(found);
    let body0 = spec_pre_body(found);
    match spec_transition(
        spec_pre_state(found),
        spec_pre_continuing(found),
        true,
        FrameType::Data,
        header.flags,
    ) {
        Err(e) => {
            if e == ErrorType::ProtocolError {
                r == Err::<Option<StreamEvent>, ErrorType>(ErrorType::ProtocolError)
            } else {
                &&& r == Ok::<Option<StreamEvent>, ErrorType>(
                    if wanted {
                        Some((id, Err(e)))
                    } else {
                        None
                    },
                )
                &&& post.state.write_buf@ == pre.state.write_buf@ + spec_rst_stream(id, e)
                &&& (spec_find_stream(post.streams.streams@, id) matches Some(s2)
                    && s2.state == StreamState::Closed && !s2.wants_response)
                &&& (forall|o: StreamId|
                    o != id ==> spec_find_stream(post.streams.streams@, o) == spec_find_stream(
                        pre.streams.streams@,
                        o,
                    ))
            }
        },
        Ok(st2) => {
            let es = spec_has_flag(header.flags, FLAG_END_STREAM);
            &&& post.state.write_buf@ == pre.state.write_buf@ + (if header.length > 0 {
                spec_window_update(id, header.length) + spec_window_update(0, header.length)
            } else {
                Seq::<u8>::empty()
            })
            &&& (if es && wanted {
                r matches Ok(Some((sid, out))) && sid == id && (out matches Ok(resp)
                    && resp.body@ == body0 + data && resp.headers_view() == spec_pre_resp_headers(
                    found,
                ))
            } else {
                r == Ok::<Option<StreamEvent>, ErrorType>(None)
            })
            &&& (spec_find_stream(post.streams.streams@, id) matches Some(s2) && s2.state == st2
                && s2.body_buffer@ == body0 + data && s2.wants_response == (wanted && !es))
            &&& (forall|o: StreamId|
                o != id ==> spec_find_stream(post.streams.streams@, o) == spec_find_stream(
                    pre.streams.streams@,
                    o,
                ))
        },
    }
}

/// What PRIORITY for a stream does: the dependency, exclusivity and weight
/// are remembered on that stream and nothing else moves; priority never
/// alters scheduling here.
pub open spec fn spec_on_priority_post(
    pre: Connection,
    post: Connection,
    header: FrameHeader,
    dependency: StreamId,
    exclusive_dependency: bool,
    weight: u8,
    r: Result<Option<StreamEvent>, ErrorType>,
) -> bool {
    let id = header.stream_id;
    let found = spec_find_stream(pre.streams.streams@, id);
    &&& r == Ok::<Option<StreamEvent>, ErrorType>(None)
    &&& post.state.write_buf == pre.state.write_buf
    &&& (spec_find_stream(post.streams.streams@, id) matches Some(s2) && s2.dependency == Some(
        dependency,
    ) && s2.exclusive_dependency == Some(exclusive_dependency) && s2.weight == Some(weight)
        && s2.state == spec_pre_state(found) && s2.wants_response == spec_pre_wants(found)
        && s2.body_buffer@ == spec_pre_body(found))
    &&& (forall|o: StreamId|
        o != id ==> spec_find_stream(post.streams.streams@, o) == spec_find_stream(
            pre.streams.streams@,
            o,
        ))
}

/// What RST_STREAM for a stream does: on an idle stream it is a connection
/// PROTOCOL_ERROR; otherwise the stream closes, the waiting caller (if any)
/// learns the carried error, nothing is written, and every other stream is
/// left alone.
pub open spec fn spec_on_reset_post(
    pre: Connection,
    post: Connection,
    header: FrameHeader,
    error: ErrorType,
    r: Result<Option<StreamEvent>, ErrorType>,
) -> bool {
    let id = header.stream_id;
    let found = spec_find_stream(pre.streams.streams@, id);
    let wanted = spec_pre_wants(found);
    match spec_transition(
        spec_pre_state(found),
        spec_pre_continuing(found),
        true,
        FrameType::ResetStream,
        header.flags,
    ) {
        Err(_) => r == Err::<Option<StreamEvent>, ErrorType>(ErrorType::ProtocolError),
        Ok(_) => {
            &&& r == Ok::<Option<StreamEvent>, ErrorType>(
                if wanted {
                    Some((id, Err(error)))
                } else {
                    None
                },
            )
            &&& post.state.write_buf == pre.state.write_buf
            &&& (spec_find_stream(post.streams.streams@, id) matches Some(s2) && s2.state
                == StreamState::Closed && !s2.wants_response)
            &&& (forall|o: StreamId|
                o != id ==> spec_find_stream(post.streams.streams@, o) == spec_find_stream(
                    pre.streams.streams@,
                    o,
                ))
        },
    }
}

/// What WINDOW_UPDATE for a stream does: the increment credits the send
/// window; an increment lifting it past `2^31 - 1` is a stream error of
/// type FLOW_CONTROL_ERROR, answered with RST_STREAM and resolving the
/// waiting caller. Either way every other stream is left alone.
pub open spec fn spec_on_window_update_stream_post(
    pre: Connection,
    post: Connection,
    header: FrameHeader,
    increment: u32,
    r: Result<Option<StreamEvent>, ErrorType>,
) -> bool {
    let id = header.stream_id;
    let found = spec_find_stream(pre.streams.streams@, id);
    let wanted = spec_pre_wants(found);
    let w0 = spec_pre_window(found, pre.state.their_settings.initial_window_size);
    if w0 as int + increment as int <= U31_MAX as int {
        &&& r == Ok::<Option<StreamEvent>, ErrorType>(None)
        &&& post.state.write_buf == pre.state.write_buf
        &&& (spec_find_stream(post.streams.streams@, id) matches Some(s2) && s2.window_remaining
            as int == w0 + increment && s2.state == spec_pre_state(found) && s2.wants_response
            == wanted)
        &&& (forall|o: StreamId|
            o != id ==> spec_find_stream(post.streams.streams@, o) == spec_find_stream(
                pre.streams.streams@,
                o,
            ))
    } else {
        &&& r == Ok::<Option<StreamEvent>, ErrorType>(
            if wanted {
                Some((id, Err(ErrorType::FlowControlError)))
            } else {
                None
            },
        )
        &&& post.state.write_buf@ == pre.state.write_buf@ + spec_rst_stream(
            id,
            ErrorType::FlowControlError,
        )
        &&& (spec_find_stream(post.streams.streams@, id) matches Some(s2) && s2.state
            == StreamState::Closed && !s2.wants_response)
        &&& (forall|o: StreamId|
            o != id ==> spec_find_stream(post.streams.streams@, o) == spec_find_stream(
                pre.streams.streams@,
                o,
            ))
    }
}

/// What HEADERS for a stream does: the lifecycle transition (a stream
/// error is answered with RST_STREAM and resolves the waiting caller), the
/// priority fields when announced, fragment assembly, and — on END_HEADERS
/// — decoding through the connection's HPACK state and completing the
/// response once the peer has finished; without END_HEADERS the connection
/// locks onto this stream's CONTINUATION sequence.
pub open spec fn spec_on_headers_post(
    pre: Connection,
    post: Connection,
    header: FrameHeader,
    dependency: Option<StreamId>,
    fragment: Seq<u8>,
    r: Result<Option<StreamEvent>, ErrorType>,
) -> bool {
    let id = header.stream_id;
    let found = spec_find_stream(pre.streams.streams@, id);
    let wanted = spec_pre_wants(found);
    let assembled = spec_pre_headers_buf(found) + fragment;
    match spec_transition(
        spec_pre_state(found),
        spec_pre_continuing(found),
        true,
        FrameType::Headers,
        header.flags,
    ) {
        Err(e) => {
            if e == ErrorType::ProtocolError {
                r == Err::<Option<StreamEvent>, ErrorType>(ErrorType::ProtocolError)
            } else {
                &&& r == Ok::<Option<StreamEvent>, ErrorType>(
                    if wanted {
                        Some((id, Err(e)))
                    } else {
                        None
                    },
                )
                &&& post.state.write_buf@ == pre.state.write_buf@ + spec_rst_stream(id, e)
                &&& post.state.continuation is None
                &&& (spec_find_stream(post.streams.streams@, id) matches Some(s2)
                    && s2.state == StreamState::Closed && !s2.wants_response)
                &&& (forall|o: StreamId|
                    o != id ==> spec_find_stream(post.streams.streams@, o) == spec_find_stream(
                        pre.streams.streams@,
                        o,
                    ))
            }
        },
        Ok(st2) => {
            let eh = spec_has_flag(header.flags, FLAG_END_HEADERS);
            let dep2 = if spec_has_flag(header.flags, crate::frame::FLAG_PRIORITY) {
                dependency
            } else {
                spec_pre_dependency(found)
            };
            if !eh {
                &&& r == Ok::<Option<StreamEvent>, ErrorType>(None)
                &&& post.state.continuation == Some((id, Continuing::Headers))
                &&& post.state.write_buf == pre.state.write_buf
                &&& (spec_find_stream(post.streams.streams@, id) matches Some(s2) && s2.state
                    == st2 && s2.headers_buffer@ == assembled && s2.continuing == Some(
                    Continuing::Headers,
                ) && s2.wants_response == wanted && s2.dependency == dep2)
                &&& (forall|o: StreamId|
                    o != id ==> spec_find_stream(post.streams.streams@, o) == spec_find_stream(
                        pre.streams.streams@,
                        o,
                    ))
            } else {
                match spec_dec_block(
                    assembled,
                    pre.state.header_decoder.table@,
                    pre.state.header_decoder.table.max_size as int,
                    pre.state.header_decoder.limit as int,
                    true,
                ) {
                    Err(_) => r == Err::<Option<StreamEvent>, ErrorType>(
                        ErrorType::CompressionError,
                    ),
                    Ok((hs, t2, m2)) => {
                        let done = st2 == StreamState::HalfClosedRemote || st2
                            == StreamState::Closed;
                        &&& post.state.continuation is None
                        &&& post.state.write_buf == pre.state.write_buf
                        &&& post.state.header_decoder.table@ == t2
                        &&& post.state.header_decoder.table.max_size as int == m2
                        &&& post.state.header_decoder.limit == pre.state.header_decoder.limit
                        &&& (if done && wanted {
                            r matches Ok(Some((sid, out))) && sid == id && (out matches Ok(resp)
                                && resp.headers_view() == spec_pre_resp_headers(found) + hs
                                && resp.body@ == spec_pre_body(found))
                        } else {
                            r == Ok::<Option<StreamEvent>, ErrorType>(None)
                        })
                        &&& (spec_find_stream(post.streams.streams@, id) matches Some(s2)
                            && s2.state == st2 && s2.headers_buffer@ == Seq::<u8>::empty()
                            && spec_headers_view(s2.response_headers@) == spec_pre_resp_headers(
                            found,
                        ) + hs && s2.continuing is None && s2.wants_response == (wanted && !done)
                            && s2.dependency == dep2)
                        &&& (forall|o: StreamId|
                            o != id ==> spec_find_stream(post.streams.streams@, o)
                                == spec_find_stream(pre.streams.streams@, o))
                    },
                }
            }
        },
    }
}

/// What CONTINUATION under the lock does: fragments keep assembling until
/// END_HEADERS; then the whole block decodes through the connection's HPACK
/// state and either completes the response (a HEADERS block whose stream
/// the peer has finished) or, for a PUSH_PROMISE block, refuses the
/// promised stream with RST_STREAM(REFUSED_STREAM).
pub open spec fn spec_on_continuation_post(
    pre: Connection,
    post: Connection,
    header: FrameHeader,
    fragment: Seq<u8>,
    r: Result<Option<StreamEvent>, ErrorType>,
) -> bool {
    let id = header.stream_id;
    let found = spec_find_stream(pre.streams.streams@, id);
    let wanted = spec_pre_wants(found);
    let assembled = spec_pre_headers_buf(found) + fragment;
    let kind = pre.state.continuation->Some_0.1;
    match spec_transition(
        spec_pre_state(found),
        spec_pre_continuing(found),
        true,
        FrameType::Continuation,
        header.flags,
    ) {
        Err(_) => r == Err::<Option<StreamEvent>, ErrorType>(ErrorType::ProtocolError),
        Ok(st2) => {
            let eh = spec_has_flag(header.flags, FLAG_END_HEADERS);
            if !eh {
                &&& r == Ok::<Option<StreamEvent>, ErrorType>(None)
                &&& post.state.continuation == pre.state.continuation
                &&& post.state.write_buf == pre.state.write_buf
                &&& (spec_find_stream(post.streams.streams@, id) matches Some(s2) && s2.state
                    == st2 && s2.headers_buffer@ == assembled && s2.wants_response == wanted)
                &&& (forall|o: StreamId|
                    o != id ==> spec_find_stream(post.streams.streams@, o) == spec_find_stream(
                        pre.streams.streams@,
                        o,
                    ))
            } else {
                match spec_dec_block(
                    assembled,
                    pre.state.header_decoder.table@,
                    pre.state.header_decoder.table.max_size as int,
                    pre.state.header_decoder.limit as int,
                    true,
                ) {
                    Err(_) => r == Err::<Option<StreamEvent>, ErrorType>(
                        ErrorType::CompressionError,
                    ),
                    Ok((hs, t2, m2)) => {
                        &&& post.state.continuation is None
                        &&& post.state.header_decoder.table@ == t2
                        &&& post.state.header_decoder.table.max_size as int == m2
                        &&& post.state.header_decoder.limit == pre.state.header_decoder.limit
                        &&& match kind {
                            Continuing::Headers => {
                                let done = st2 == StreamState::HalfClosedRemote || st2
                                    == StreamState::Closed;
                                &&& post.state.write_buf == pre.state.write_buf
                                &&& (if done && wanted {
                                    r matches Ok(Some((sid, out))) && sid == id && (out matches Ok(
                                        resp,
                                    ) && resp.headers_view() == spec_pre_resp_headers(found) + hs
                                        && resp.body@ == spec_pre_body(found))
                                } else {
                                    r == Ok::<Option<StreamEvent>, ErrorType>(None)
                                })
                                &&& (spec_find_stream(post.streams.streams@, id) matches Some(s2)
                                    && s2.state == st2 && s2.headers_buffer@ == Seq::<u8>::empty()
                                    && spec_headers_view(s2.response_headers@)
                                    == spec_pre_resp_headers(found) + hs && s2.wants_response == (
                                wanted && !done))
                            },
                            Continuing::PushPromise => {
                                // server push is refused outright
                                &&& r == Ok::<Option<StreamEvent>, ErrorType>(None)
                                &&& post.state.write_buf@ == pre.state.write_buf@
                                    + spec_rst_stream(id, ErrorType::RefusedStream)
                                &&& (spec_find_stream(post.streams.streams@, id) matches Some(s2)
                                    && s2.state == StreamState::Closed)
                            },
                        }
                        &&& (forall|o: StreamId|
                            o != id ==> spec_find_stream(post.streams.streams@, o)
                                == spec_find_stream(pre.streams.streams@, o))
                    },
                }
            }
        },
    }
}

/// What PUSH_PROMISE does: the promised stream is reserved, its header
/// block assembles (locking the connection without END_HEADERS), and once
/// complete the push is refused with RST_STREAM(REFUSED_STREAM); no
/// response state is ever created for it.
pub open spec fn spec_on_push_promise_post(
    pre: Connection,
    post: Connection,
    header: FrameHeader,
    promised_stream: StreamId,
    fragment: Seq<u8>,
    r: Result<Option<StreamEvent>, ErrorType>,
) -> bool {
    let found = spec_find_stream(pre.streams.streams@, promised_stream);
    let assembled = spec_pre_headers_buf(found) + fragment;
    match spec_transition(
        spec_pre_state(found),
        spec_pre_continuing(found),
        true,
        FrameType::PushPromise,
        header.flags,
    ) {
        Err(_) => r == Err::<Option<StreamEvent>, ErrorType>(ErrorType::ProtocolError),
        Ok(st2) => {
            let eh = spec_has_flag(header.flags, FLAG_END_HEADERS);
            if !eh {
                &&& r == Ok::<Option<StreamEvent>, ErrorType>(None)
                &&& post.state.continuation == Some((promised_stream, Continuing::PushPromise))
                &&& post.state.write_buf == pre.state.write_buf
                &&& (spec_find_stream(post.streams.streams@, promised_stream) matches Some(s2)
                    && s2.state == st2 && s2.headers_buffer@ == assembled && s2.continuing == Some(
                    Continuing::PushPromise,
                ) && s2.wants_response == spec_pre_wants(found))
                &&& (forall|o: StreamId|
                    o != promised_stream ==> spec_find_stream(post.streams.streams@, o)
                        == spec_find_stream(pre.streams.streams@, o))
            } else {
                match spec_dec_block(
                    assembled,
                    pre.state.header_decoder.table@,
                    pre.state.header_decoder.table.max_size as int,
                    pre.state.header_decoder.limit as int,
                    true,
                ) {
                    Err(_) => r == Err::<Option<StreamEvent>, ErrorType>(
                        ErrorType::CompressionError,
                    ),
                    Ok((hs, t2, m2)) => {
                        &&& r == Ok::<Option<StreamEvent>, ErrorType>(None)
                        &&& post.state.continuation == pre.state.continuation
                        &&& post.state.write_buf@ == pre.state.write_buf@ + spec_rst_stream(
                            promised_stream,
                            ErrorType::RefusedStream,
                        )
                        &&& post.state.header_decoder.table@ == t2
                        &&& post.state.header_decoder.table.max_size as int == m2
                        &&& (spec_find_stream(post.streams.streams@, promised_stream)
                            matches Some(s2) && s2.state == StreamState::Closed
                            && s2.wants_response == spec_pre_wants(found))
                        &&& (forall|o: StreamId|
                            o != promised_stream ==> spec_find_stream(post.streams.streams@, o)
                                == spec_find_stream(pre.streams.streams@, o))
                    },
                }
            }
        },
    }
}

/// What a non-ACK SETTINGS on stream 0 does: the parameters are adopted
/// last-wins (an illegal value is the connection error the parameter
/// defines), every stream's send window shifts by the initial-window delta
/// (a window forced out of the signed 31-bit range is a connection
/// FLOW_CONTROL_ERROR), exactly one empty SETTINGS ACK goes out, and the
/// handshake is complete.
pub open spec fn spec_on_settings_post(
    pre: Connection,
    post: Connection,
    params: Seq<(SettingsParameter, u32)>,
    r: Result<Option<StreamEvent>, ErrorType>,
) -> bool {
    match pre.state.their_settings.spec_apply(params) {
        Err(e) => r == Err::<Option<StreamEvent>, ErrorType>(e),
        Ok(s2) => {
            let delta = s2.initial_window_size as int
                - pre.state.their_settings.initial_window_size as int;
            match r {
                Ok(ev) => {
                    &&& ev is None
                    &&& post.state.their_settings == s2
                    &&& post.state.ready
                    &&& post.state.write_buf@ == pre.state.write_buf@ + spec_settings_ack()
                    &&& post.streams.streams@.len() == pre.streams.streams@.len()
                    &&& (forall|i: int|
                        0 <= i < pre.streams.streams@.len() ==> #[trigger] post.streams.streams@[i]
                            == (Stream {
                            window_remaining: (pre.streams.streams@[i].window_remaining
                                + delta) as i64,
                            window_base: Ghost(pre.streams.streams@[i].window_base@ + delta),
                            ..pre.streams.streams@[i]
                        }))
                },
                Err(e) => e == ErrorType::FlowControlError && (exists|i: int|
                    0 <= i < pre.streams.streams@.len() && !(-(U31_MAX as int) <= (
                    #[trigger] pre.streams.streams@[i]).window_remaining + delta <= U31_MAX as int)),
            }
        },
    }
}

impl Connection {
    /// Queues one WINDOW_UPDATE frame.
    fn queue_window_update(&mut self, id: StreamId, increment: u32)
        requires
            old(self).wf(),
            0 < increment <= U31_MAX,
            id <= U31_MAX,
        ensures
            final(self).wf(),
            final(self).state.write_buf@ == old(self).state.write_buf@ + spec_window_update(
                id,
                increment,
            ),
            *final(self) == (Connection {
                state: ConnectionState { write_buf: final(self).state.write_buf, ..old(self).state },
                ..*old(self)
            }),
    {
        let payload = FramePayload::WindowUpdate { increment };
        assert(payload@ == (PayloadView::WindowUpdate { increment }));
        payload.write_into(&mut self.state.write_buf, id, 0);
    }

    /// Applies the delta a change of SETTINGS_INITIAL_WINDOW_SIZE makes to
    /// every stream's send window; a window pushed out of the signed
    /// 31-bit range is a connection FLOW_CONTROL_ERROR.
    fn adjust_stream_windows(&mut self, old_initial: u32, new_initial: u32) -> (r: Result<
        (),
        ErrorType,
    >)
        requires
            old(self).wf(),
            old_initial <= U31_MAX,
            new_initial <= U31_MAX,
        ensures
            final(self).wf(),
            final(self).state == old(self).state,
            final(self).streams.next_id == old(self).streams.next_id,
            ({
                let delta = new_initial as int - old_initial as int;
                match r {
                    Ok(()) => {
                        &&& final(self).streams.streams@.len() == old(self).streams.streams@.len()
                        &&& forall|i: int|
                            0 <= i < old(self).streams.streams@.len()
                                ==> #[trigger] final(self).streams.streams@[i] == (Stream {
                                window_remaining: (old(self).streams.streams@[i].window_remaining
                                    + delta) as i64,
                                window_base: Ghost(
                                    old(self).streams.streams@[i].window_base@ + delta,
                                ),
                                ..old(self).streams.streams@[i]
                            })
                    },
                    Err(e) => e == ErrorType::FlowControlError && (exists|i: int|
                        0 <= i < old(self).streams.streams@.len() && !(-(U31_MAX as int) <= (
                        #[trigger] old(self).streams.streams@[i]).window_remaining + delta
                            <= U31_MAX as int)),
                }
            }),
    {
        let delta: i64 = new_initial as i64 - old_initial as i64;
        let mut i: usize = 0;
        while i < self.streams.streams.len()
            invariant
                self.wf(),
                self.state == old(self).state,
                self.streams.next_id == old(self).streams.next_id,
                i <= self.streams.streams@.len(),
                delta == new_initial as i64 - old_initial as i64,
                -(U31_MAX as i64) <= delta <= U31_MAX as i64,
                self.streams.streams@.len() == old(self).streams.streams@.len(),
                forall|k: int|
                    0 <= k < i ==> #[trigger] self.streams.streams@[k] == (Stream {
                        window_remaining: (old(self).streams.streams@[k].window_remaining
                            + delta as int) as i64,
                        window_base: Ghost(old(self).streams.streams@[k].window_base@ + delta),
                        ..old(self).streams.streams@[k]
                    }),
                forall|k: int|
                    i <= k < self.streams.streams@.len() ==> #[trigger] self.streams.streams@[k]
                        == old(self).streams.streams@[k],
            decreases self.streams.streams@.len() - i,
        {
            let ghost before = self.streams.streams@;
            let mut s = self.streams.streams.remove(i);
            let next = s.window_remaining + delta;
            if next > U31_MAX as i64 || next < -(U31_MAX as i64) {
                self.streams.streams.insert(i, s);
                proof {
                    assert(forall|k: int|
                        0 <= k < self.streams.streams@.len()
                            ==> #[trigger] self.streams.streams@[k].id == before[k].id);
                }
                return Err(ErrorType::FlowControlError);
            }
            s.window_remaining = next;
            proof {
                s.window_base@ = s.window_base@ + delta as int;
            }
            self.streams.streams.insert(i, s);
            proof {
                assert(forall|k: int|
                    0 <= k < self.streams.streams@.len()
                        ==> #[trigger] self.streams.streams@[k].id == before[k].id);
            }
            i = i + 1;
        }
        Ok(())
    }

    /// A non-ACK SETTINGS on stream 0: adopt the parameters, spread any
    /// initial-window delta over the streams, acknowledge, and mark the
    /// handshake complete, exactly as `spec_on_settings_post` states.
    fn on_settings(&mut self, header: &FrameHeader, params: Vec<(SettingsParameter, u32)>) -> (r:
        Result<Option<StreamEvent>, ErrorType>)
        requires
            old(self).wf(),
        ensures
            final(self).wf(),
            final(self).state.read_buf == old(self).state.read_buf && final(self).state.read_pos == old(self).state.read_pos && final(self).state.header == old(self).state.header,
            final(self).state.continuation == old(self).state.continuation,
            spec_on_settings_post(*old(self), *final(self), params@, r),
    {
        let old_initial = self.state.their_settings.initial_window_size;
        match self.state.their_settings.apply(&params) {
            Err(e) => Err(e),
            Ok(()) => {
                proof {
                    Settings::lemma_apply_wf(old(self).state.their_settings, params@);
                }
                let new_initial = self.state.their_settings.initial_window_size;
                match self.adjust_stream_windows(old_initial, new_initial) {
                    Err(e) => Err(e),
                    Ok(()) => {
                        let ack = FramePayload::Settings { params: Vec::new() };
                        assert(ack@ == (PayloadView::Settings {
                            params: Seq::<(SettingsParameter, u32)>::empty(),
                        }));
                        ack.write_into(&mut self.state.write_buf, 0, FLAG_ACK);
                        self.state.ready = true;
                        Ok(None)
                    },
                }
            },
        }
    }
}

impl Connection {
    /// DATA for a stream: the lifecycle transition, body assembly, window
    /// replenishment and response completion, exactly as
    /// `spec_on_data_post` states.
    #[verifier::rlimit(100)]
    #[verifier::spinoff_prover]
    fn on_data(&mut self, header: &FrameHeader, data: Vec<u8>) -> (r: Result<
        Option<StreamEvent>,
        ErrorType,
    >)
        requires
            old(self).wf(),
            header.wf(),
            header.ty == FrameType::Data,
            0 < header.stream_id,
        ensures
            final(self).wf(),
            final(self).state.read_buf == old(self).state.read_buf && final(self).state.read_pos == old(self).state.read_pos && final(self).state.header == old(self).state.header,
            final(self).state.continuation == old(self).state.continuation,
            spec_on_data_post(*old(self), *final(self), *header, data@, r),
    {
        let id = header.stream_id;
        let initial = self.state.their_settings.initial_window_size;
        let ghost s0 = self.streams.streams@;
        let i = self.streams.get_mut(id, initial);
        let ghost mid = self.streams.streams@;
        proof {
            lemma_get_mut_find(s0, mid, i as int, id, initial);
        }
        let ghost found = spec_find_stream(s0, id);
        let mut s = self.streams.streams.remove(i);
        assert(s.state == spec_pre_state(found) && s.continuing == spec_pre_continuing(found)
            && s.wants_response == spec_pre_wants(found) && s.body_buffer@ == spec_pre_body(found)
            && spec_headers_view(s.response_headers@) == spec_pre_resp_headers(found));
        match s.transition_state(true, FrameType::Data, header.flags) {
            Err(e) => {
                let wanted = s.wants_response;
                s.wants_response = false;
                self.streams.streams.insert(i, s);
                proof {
                    assert(self.streams.streams@ =~= mid.update(
                        i as int,
                        self.streams.streams@[i as int],
                    ));
                    lemma_put_back_find(
                        mid,
                        self.streams.streams@,
                        i as int,
                        self.streams.streams@[i as int],
                    );
                }
                if matches!(e, ErrorType::ProtocolError) {
                    return Err(ErrorType::ProtocolError);
                }
                self.queue_rst_stream(id, e);
                if wanted {
                    Ok(Some((id, Err(e))))
                } else {
                    Ok(None)
                }
            },
            Ok(()) => {
                s.append_body(&data);
                let event: Option<StreamEvent> = if has_flag(header.flags, FLAG_END_STREAM) {
                    match s.take_response() {
                        Some(resp) => Some((id, Ok(resp))),
                        None => None,
                    }
                } else {
                    None
                };
                self.streams.streams.insert(i, s);
                proof {
                    assert(self.streams.streams@ =~= mid.update(
                        i as int,
                        self.streams.streams@[i as int],
                    ));
                    lemma_put_back_find(
                        mid,
                        self.streams.streams@,
                        i as int,
                        self.streams.streams@[i as int],
                    );
                }
                if header.length > 0 {
                    self.queue_window_update(id, header.length);
                    self.queue_window_update(0, header.length);
                    assert(self.state.write_buf@ =~= old(self).state.write_buf@ + (
                    spec_window_update(id, header.length) + spec_window_update(
                        0,
                        header.length,
                    )));
                } else {
                    assert(self.state.write_buf@ =~= old(self).state.write_buf@ + Seq::<
                        u8,
                    >::empty());
                }
                Ok(event)
            },
        }
    }

    /// HEADERS for a stream: the transition, priority bookkeeping, fragment
    /// assembly, decoding on END_HEADERS (or the CONTINUATION lock without
    /// it), and response completion when the peer has finished, exactly as
    /// `spec_on_headers_post` states.
    #[verifier::rlimit(100)]
    #[verifier::spinoff_prover]
    fn on_headers(
        &mut self,
        header: &FrameHeader,
        dependency: Option<StreamId>,
        exclusive_dependency: Option<bool>,
        weight: Option<u8>,
        fragment: Vec<u8>,
    ) -> (r: Result<Option<StreamEvent>, ErrorType>)
        requires
            old(self).wf(),
            header.wf(),
            header.ty == FrameType::Headers,
            0 < header.stream_id,
            old(self).state.continuation is None,
        ensures
            final(self).wf(),
            final(self).state.read_buf == old(self).state.read_buf && final(self).state.read_pos == old(self).state.read_pos && final(self).state.header == old(self).state.header,
            spec_on_headers_post(*old(self), *final(self), *header, dependency, fragment@, r),
    {
        let id = header.stream_id;
        let initial = self.state.their_settings.initial_window_size;
        let ghost s0 = self.streams.streams@;
        let i = self.streams.get_mut(id, initial);
        let ghost mid = self.streams.streams@;
        proof {
            lemma_get_mut_find(s0, mid, i as int, id, initial);
        }
        let ghost found = spec_find_stream(s0, id);
        let mut s = self.streams.streams.remove(i);
        assert(s.state == spec_pre_state(found) && s.continuing == spec_pre_continuing(found)
            && s.wants_response == spec_pre_wants(found) && s.headers_buffer@
            == spec_pre_headers_buf(found) && spec_headers_view(s.response_headers@)
            == spec_pre_resp_headers(found) && s.body_buffer@ == spec_pre_body(found)
            && s.dependency == spec_pre_dependency(found));
        match s.transition_state(true, FrameType::Headers, header.flags) {
            Err(e) => {
                let wanted = s.wants_response;
                s.wants_response = false;
                self.streams.streams.insert(i, s);
                proof {
                    assert(self.streams.streams@ =~= mid.update(
                        i as int,
                        self.streams.streams@[i as int],
                    ));
                    lemma_put_back_find(
                        mid,
                        self.streams.streams@,
                        i as int,
                        self.streams.streams@[i as int],
                    );
                }
                if matches!(e, ErrorType::ProtocolError) {
                    return Err(ErrorType::ProtocolError);
                }
                self.queue_rst_stream(id, e);
                if wanted {
                    Ok(Some((id, Err(e))))
                } else {
                    Ok(None)
                }
            },
            Ok(()) => {
                if has_flag(header.flags, crate::frame::FLAG_PRIORITY) {
                    s.dependency = dependency;
                    s.exclusive_dependency = exclusive_dependency;
                    s.weight = weight;
                }
                s.append_header_fragment(&fragment);
                let mut event: Option<StreamEvent> = None;
                let mut failed: Option<ErrorType> = None;
                if has_flag(header.flags, FLAG_END_HEADERS) {
                    self.state.continuation = None;
                    s.continuing = None;
                    match s.decode_headers(&mut self.state.header_decoder) {
                        Err(_) => {
                            failed = Some(ErrorType::CompressionError);
                        },
                        Ok(()) => {
                            if matches!(s.state, crate::stream::StreamState::HalfClosedRemote)
                                || matches!(s.state, crate::stream::StreamState::Closed) {
                                match s.take_response() {
                                    Some(resp) => {
                                        event = Some((id, Ok(resp)));
                                    },
                                    None => {},
                                }
                            }
                        },
                    }
                } else {
                    self.state.continuation = Some((id, Continuing::Headers));
                    s.continuing = Some(Continuing::Headers);
                }
                self.streams.streams.insert(i, s);
                proof {
                    assert(self.streams.streams@ =~= mid.update(
                        i as int,
                        self.streams.streams@[i as int],
                    ));
                    lemma_put_back_find(
                        mid,
                        self.streams.streams@,
                        i as int,
                        self.streams.streams@[i as int],
                    );
                }
                match failed {
                    Some(e) => Err(e),
                    None => Ok(event),
                }
            },
        }
    }

    /// CONTINUATION under the lock: assembly, and on END_HEADERS the decode
    /// and either response completion or refusal of the promised stream,
    /// exactly as `spec_on_continuation_post` states.
    #[verifier::rlimit(100)]
    #[verifier::spinoff_prover]
    fn on_continuation(&mut self, header: &FrameHeader, fragment: Vec<u8>) -> (r: Result<
        Option<StreamEvent>,
        ErrorType,
    >)
        requires
            old(self).wf(),
            header.wf(),
            header.ty == FrameType::Continuation,
            0 < header.stream_id,
            old(self).state.continuation matches Some((sid, _)) && sid == header.stream_id,
        ensures
            final(self).wf(),
            final(self).state.read_buf == old(self).state.read_buf && final(self).state.read_pos == old(self).state.read_pos && final(self).state.header == old(self).state.header,
            spec_on_continuation_post(*old(self), *final(self), *header, fragment@, r),
    {
        let id = header.stream_id;
        let kind = match self.state.continuation {
            Some((_, k)) => k,
            None => {
                return Err(ErrorType::ProtocolError);
            },
        };
        let initial = self.state.their_settings.initial_window_size;
        let ghost s0 = self.streams.streams@;
        let i = self.streams.get_mut(id, initial);
        let ghost mid = self.streams.streams@;
        proof {
            lemma_get_mut_find(s0, mid, i as int, id, initial);
        }
        let ghost found = spec_find_stream(s0, id);
        let mut s = self.streams.streams.remove(i);
        assert(s.state == spec_pre_state(found) && s.continuing == spec_pre_continuing(found)
            && s.wants_response == spec_pre_wants(found) && s.headers_buffer@
            == spec_pre_headers_buf(found) && spec_headers_view(s.response_headers@)
            == spec_pre_resp_headers(found) && s.body_buffer@ == spec_pre_body(found));
        match s.transition_state(true, FrameType::Continuation, header.flags) {
            Err(_) => {
                self.streams.streams.insert(i, s);
                proof {
                    assert(self.streams.streams@ =~= mid.update(
                        i as int,
                        self.streams.streams@[i as int],
                    ));
                    lemma_put_back_find(
                        mid,
                        self.streams.streams@,
                        i as int,
                        self.streams.streams@[i as int],
                    );
                }
                // a header block cut short by a dead stream poisons the
                // whole connection
                Err(ErrorType::ProtocolError)
            },
            Ok(()) => {
                s.append_header_fragment(&fragment);
                let mut event: Option<StreamEvent> = None;
                let mut failed: Option<ErrorType> = None;
                let mut refuse = false;
                if has_flag(header.flags, FLAG_END_HEADERS) {
                    self.state.continuation = None;
                    s.continuing = None;
                    match s.decode_headers(&mut self.state.header_decoder) {
                        Err(_) => {
                            failed = Some(ErrorType::CompressionError);
                        },
                        Ok(()) => {
                            match kind {
                                Continuing::Headers => {
                                    if matches!(
                                        s.state,
                                        crate::stream::StreamState::HalfClosedRemote,
                                    ) || matches!(s.state, crate::stream::StreamState::Closed) {
                                        match s.take_response() {
                                            Some(resp) => {
                                                event = Some((id, Ok(resp)));
                                            },
                                            None => {},
                                        }
                                    }
                                },
                                Continuing::PushPromise => {
                                    // server push is refused outright
                                    refuse = true;
                                },
                            }
                        },
                    }
                }
                self.streams.streams.insert(i, s);
                proof {
                    assert(self.streams.streams@ =~= mid.update(
                        i as int,
                        self.streams.streams@[i as int],
                    ));
                    lemma_put_back_find(
                        mid,
                        self.streams.streams@,
                        i as int,
                        self.streams.streams@[i as int],
                    );
                }
                match failed {
                    Some(e) => Err(e),
                    None => {
                        if refuse {
                            self.queue_rst_stream(id, ErrorType::RefusedStream);
                        }
                        Ok(event)
                    },
                }
            },
        }
    }

    /// PUSH_PROMISE: the promised stream is reserved and, once its header
    /// block is complete, refused with RST_STREAM(REFUSED_STREAM), exactly
    /// as `spec_on_push_promise_post` states.
    #[verifier::rlimit(100)]
    #[verifier::spinoff_prover]
    fn on_push_promise(&mut self, header: &FrameHeader, promised_stream: StreamId, fragment: Vec<u8>) -> (r: Result<
        Option<StreamEvent>,
        ErrorType,
    >)
        requires
            old(self).wf(),
            header.wf(),
            header.ty == FrameType::PushPromise,
            0 < promised_stream <= U31_MAX,
            old(self).state.continuation is None,
        ensures
            final(self).wf(),
            final(self).state.read_buf == old(self).state.read_buf && final(self).state.read_pos == old(self).state.read_pos && final(self).state.header == old(self).state.header,
            r matches Ok(ev) ==> ev is None,
            spec_on_push_promise_post(*old(self), *final(self), *header, promised_stream, fragment@, r),
    {
        let initial = self.state.their_settings.initial_window_size;
        let ghost s0 = self.streams.streams@;
        let i = self.streams.get_mut(promised_stream, initial);
        let ghost mid = self.streams.streams@;
        proof {
            lemma_get_mut_find(s0, mid, i as int, promised_stream, initial);
        }
        let ghost found = spec_find_stream(s0, promised_stream);
        let mut s = self.streams.streams.remove(i);
        assert(s.state == spec_pre_state(found) && s.continuing == spec_pre_continuing(found)
            && s.wants_response == spec_pre_wants(found) && s.headers_buffer@
            == spec_pre_headers_buf(found));
        match s.transition_state(true, FrameType::PushPromise, header.flags) {
            Err(e) => {
                self.streams.streams.insert(i, s);
                proof {
                    assert(self.streams.streams@ =~= mid.update(
                        i as int,
                        self.streams.streams@[i as int],
                    ));
                    lemma_put_back_find(
                        mid,
                        self.streams.streams@,
                        i as int,
                        self.streams.streams@[i as int],
                    );
                }
                Err(ErrorType::ProtocolError)
            },
            Ok(()) => {
                s.append_header_fragment(&fragment);
                let mut failed: Option<ErrorType> = None;
                let mut refuse = false;
                if has_flag(header.flags, FLAG_END_HEADERS) {
                    s.continuing = None;
                    match s.decode_headers(&mut self.state.header_decoder) {
                        Err(_) => {
                            failed = Some(ErrorType::CompressionError);
                        },
                        Ok(()) => {
                            refuse = true;
                        },
                    }
                } else {
                    self.state.continuation = Some((promised_stream, Continuing::PushPromise));
                    s.continuing = Some(Continuing::PushPromise);
                }
                self.streams.streams.insert(i, s);
                proof {
                    assert(self.streams.streams@ =~= mid.update(
                        i as int,
                        self.streams.streams@[i as int],
                    ));
                    lemma_put_back_find(
                        mid,
                        self.streams.streams@,
                        i as int,
                        self.streams.streams@[i as int],
                    );
                }
                match failed {
                    Some(e) => Err(e),
                    None => {
                        if refuse {
                            self.queue_rst_stream(promised_stream, ErrorType::RefusedStream);
                        }
                        Ok(None)
                    },
                }
            },
        }
    }

    /// PRIORITY: remembered, never scheduled on, exactly as
    /// `spec_on_priority_post` states.
    fn on_priority(
        &mut self,
        header: &FrameHeader,
        dependency: StreamId,
        exclusive_dependency: bool,
        weight: u8,
    ) -> (r: Result<Option<StreamEvent>, ErrorType>)
        requires
            old(self).wf(),
            header.wf(),
            0 < header.stream_id,
        ensures
            final(self).wf(),
            final(self).state.read_buf == old(self).state.read_buf && final(self).state.read_pos == old(self).state.read_pos && final(self).state.header == old(self).state.header,
            final(self).state.continuation == old(self).state.continuation,
            r matches Ok(ev) ==> ev is None,
            spec_on_priority_post(
                *old(self),
                *final(self),
                *header,
                dependency,
                exclusive_dependency,
                weight,
                r,
            ),
    {
        let id = header.stream_id;
        let initial = self.state.their_settings.initial_window_size;
        let ghost s0 = self.streams.streams@;
        let i = self.streams.get_mut(id, initial);
        let ghost mid = self.streams.streams@;
        proof {
            lemma_get_mut_find(s0, mid, i as int, id, initial);
        }
        let mut s = self.streams.streams.remove(i);
        s.dependency = Some(dependency);
        s.exclusive_dependency = Some(exclusive_dependency);
        s.weight = Some(weight);
        self.streams.streams.insert(i, s);
        proof {
            assert(self.streams.streams@ =~= mid.update(i as int, self.streams.streams@[i as int]));
            lemma_put_back_find(
                mid,
                self.streams.streams@,
                i as int,
                self.streams.streams@[i as int],
            );
        }
        Ok(None)
    }

    /// RST_STREAM: the peer abandoned the stream; the waiting caller, if
    /// any, learns the error, exactly as `spec_on_reset_post` states.
    fn on_reset_stream(&mut self, header: &FrameHeader, error: ErrorType) -> (r: Result<
        Option<StreamEvent>,
        ErrorType,
    >)
        requires
            old(self).wf(),
            header.wf(),
            0 < header.stream_id,
        ensures
            final(self).wf(),
            final(self).state.read_buf == old(self).state.read_buf && final(self).state.read_pos == old(self).state.read_pos && final(self).state.header == old(self).state.header,
            final(self).state.continuation == old(self).state.continuation,
            spec_on_reset_post(*old(self), *final(self), *header, error, r),
    {
        let id = header.stream_id;
        let initial = self.state.their_settings.initial_window_size;
        let ghost s0 = self.streams.streams@;
        let i = self.streams.get_mut(id, initial);
        let ghost mid = self.streams.streams@;
        proof {
            lemma_get_mut_find(s0, mid, i as int, id, initial);
        }
        let mut s = self.streams.streams.remove(i);
        match s.transition_state(true, FrameType::ResetStream, header.flags) {
            Err(_) => {
                self.streams.streams.insert(i, s);
                proof {
                    assert(self.streams.streams@ =~= mid.update(
                        i as int,
                        self.streams.streams@[i as int],
                    ));
                    lemma_put_back_find(
                        mid,
                        self.streams.streams@,
                        i as int,
                        self.streams.streams@[i as int],
                    );
                }
                // RST_STREAM on an idle stream
                Err(ErrorType::ProtocolError)
            },
            Ok(()) => {
                let wanted = s.wants_response;
                s.wants_response = false;
                self.streams.streams.insert(i, s);
                proof {
                    assert(self.streams.streams@ =~= mid.update(
                        i as int,
                        self.streams.streams@[i as int],
                    ));
                    lemma_put_back_find(
                        mid,
                        self.streams.streams@,
                        i as int,
                        self.streams.streams@[i as int],
                    );
                }
                if wanted {
                    Ok(Some((id, Err(error))))
                } else {
                    Ok(None)
                }
            },
        }
    }

    /// WINDOW_UPDATE on a stream: credit its send window, or answer the
    /// overflow with RST_STREAM, exactly as
    /// `spec_on_window_update_stream_post` states.
    fn on_window_update_stream(&mut self, header: &FrameHeader, increment: u32) -> (r: Result<
        Option<StreamEvent>,
        ErrorType,
    >)
        requires
            old(self).wf(),
            header.wf(),
            0 < header.stream_id,
            0 < increment <= U31_MAX,
        ensures
            final(self).wf(),
            final(self).state.read_buf == old(self).state.read_buf && final(self).state.read_pos == old(self).state.read_pos && final(self).state.header == old(self).state.header,
            final(self).state.continuation == old(self).state.continuation,
            spec_on_window_update_stream_post(*old(self), *final(self), *header, increment, r),
    {
        let id = header.stream_id;
        let initial = self.state.their_settings.initial_window_size;
        let ghost s0 = self.streams.streams@;
        let i = self.streams.get_mut(id, initial);
        let ghost mid = self.streams.streams@;
        proof {
            lemma_get_mut_find(s0, mid, i as int, id, initial);
        }
        let mut s = self.streams.streams.remove(i);
        match s.credit_window(increment) {
            Ok(()) => {
                self.streams.streams.insert(i, s);
                proof {
                    assert(self.streams.streams@ =~= mid.update(
                        i as int,
                        self.streams.streams@[i as int],
                    ));
                    lemma_put_back_find(
                        mid,
                        self.streams.streams@,
                        i as int,
                        self.streams.streams@[i as int],
                    );
                }
                Ok(None)
            },
            Err(e) => {
                let wanted = s.wants_response;
                s.wants_response = false;
                self.streams.streams.insert(i, s);
                proof {
                    assert(self.streams.streams@ =~= mid.update(
                        i as int,
                        self.streams.streams@[i as int],
                    ));
                    lemma_put_back_find(
                        mid,
                        self.streams.streams@,
                        i as int,
                        self.streams.streams@[i as int],
                    );
                }
                self.queue_rst_stream(id, e);
                if wanted {
                    Ok(Some((id, Err(e))))
                } else {
                    Ok(None)
                }
            },
        }
    }
}

/// Whether the CONTINUATION lock admits a frame: while a header block is
/// open on stream `sid`, only CONTINUATION on `sid` may appear.
pub open spec fn spec_lock_admits(
    lock: Option<(StreamId, Continuing)>,
    ty: FrameType,
    id: StreamId,
) -> bool {
    match lock {
        Some((sid, _)) => ty == FrameType::Continuation && id == sid,
        None => true,
    }
}

impl Connection {
    /// Dispatches one received frame, per RFC 7540 §4.3 and §5: any frame
    /// other than the awaited CONTINUATION while a header block is open is
    /// a connection PROTOCOL_ERROR; SETTINGS, PING and GOAWAY live on
    /// stream 0 and nowhere else; everything else is routed to its stream.
    /// A connection error comes back as `Err`; stream errors are answered
    /// with RST_STREAM inside and surface, at most, as the waiting
    /// caller's error event.
    #[verifier::rlimit(100)]
    #[verifier::spinoff_prover]
    pub fn handle_frame(&mut self, header: &FrameHeader, payload: FramePayload) -> (r: Result<
        Option<StreamEvent>,
        ErrorType,
    >)
        requires
            old(self).wf(),
            header.wf(),
            payload@.wf(),
            payload@.frame_type() == header.ty,
        ensures
            final(self).wf(),
            final(self).state.read_buf == old(self).state.read_buf && final(self).state.read_pos == old(self).state.read_pos && final(self).state.header == old(self).state.header,
            !spec_lock_admits(old(self).state.continuation, header.ty, header.stream_id) ==> r
                == Err::<Option<StreamEvent>, ErrorType>(ErrorType::ProtocolError),
            ({
                let admitted = spec_lock_admits(
                    old(self).state.continuation,
                    header.ty,
                    header.stream_id,
                );
                &&& (admitted && header.stream_id != 0 && (header.ty == FrameType::Settings
                    || header.ty == FrameType::Ping || header.ty == FrameType::GoAway) ==> r
                    == Err::<Option<StreamEvent>, ErrorType>(ErrorType::ProtocolError))
                &&& (admitted && header.stream_id == 0 && !spec_has_flag(header.flags, FLAG_ACK)
                    ==> (payload@ matches PayloadView::Ping { data } ==> r is Ok && final(self).state.write_buf@ == old(self).state.write_buf@ + spec_ping_ack(data)))
                &&& (admitted && header.stream_id == 0 && header.ty == FrameType::Ping
                    && spec_has_flag(header.flags, FLAG_ACK) ==> r is Ok && final(self).state.write_buf == old(self).state.write_buf)
                &&& (admitted && header.stream_id == 0 ==> (payload@
                    matches PayloadView::GoAway { last_stream, error, debug } ==> r is Ok && final(self).state.goaway == Some((last_stream, error))))
                &&& (admitted && header.stream_id == 0 ==> (payload@
                    matches PayloadView::WindowUpdate { increment: inc } ==> ({
                    if old(self).state.window_remaining as int + inc as int <= U31_MAX as int {
                        r is Ok && final(self).state.window_remaining == old(self).state.window_remaining + inc as i64
                    } else {
                        r == Err::<Option<StreamEvent>, ErrorType>(ErrorType::FlowControlError)
                    }
                })))
                &&& (admitted && header.stream_id == 0 && !spec_has_flag(header.flags, FLAG_ACK)
                    ==> (payload@ matches PayloadView::Settings { params }
                    ==> spec_on_settings_post(*old(self), *final(self), params, r)))
                &&& (admitted && header.stream_id == 0 && (header.ty == FrameType::Data
                    || header.ty == FrameType::Headers || header.ty == FrameType::Priority
                    || header.ty == FrameType::ResetStream || header.ty == FrameType::PushPromise
                    || header.ty == FrameType::Continuation) ==> r == Err::<
                    Option<StreamEvent>,
                    ErrorType,
                >(ErrorType::ProtocolError))
                &&& (admitted && header.stream_id != 0 ==> (payload@ matches PayloadView::Data {
                    data,
                } ==> spec_on_data_post(*old(self), *final(self), *header, data, r)))
                &&& (admitted && header.stream_id != 0 ==> (payload@
                    matches PayloadView::Headers { dependency, exclusive_dependency, weight, fragment } ==> spec_on_headers_post(
                    *old(self),
                    *final(self),
                    *header,
                    dependency,
                    fragment,
                    r,
                )))
                &&& (admitted && header.stream_id != 0 && old(self).state.continuation is Some
                    ==> (payload@ matches PayloadView::Continuation { fragment }
                    ==> spec_on_continuation_post(*old(self), *final(self), *header, fragment, r)))
                &&& (admitted && header.stream_id != 0 && old(self).state.continuation is None
                    && header.ty == FrameType::Continuation ==> r == Err::<
                    Option<StreamEvent>,
                    ErrorType,
                >(ErrorType::ProtocolError))
                &&& (admitted && header.stream_id != 0 ==> (payload@
                    matches PayloadView::Priority { dependency, exclusive_dependency, weight }
                    ==> spec_on_priority_post(
                    *old(self),
                    *final(self),
                    *header,
                    dependency,
                    exclusive_dependency,
                    weight,
                    r,
                )))
                &&& (admitted && header.stream_id != 0 ==> (payload@
                    matches PayloadView::ResetStream { error } ==> spec_on_reset_post(
                    *old(self),
                    *final(self),
                    *header,
                    error,
                    r,
                )))
                &&& (admitted && header.stream_id != 0 ==> (payload@
                    matches PayloadView::PushPromise { promised_stream, fragment }
                    ==> spec_on_push_promise_post(
                    *old(self),
                    *final(self),
                    *header,
                    promised_stream,
                    fragment,
                    r,
                )))
                &&& (admitted && header.stream_id != 0 ==> (payload@
                    matches PayloadView::WindowUpdate { increment }
                    ==> spec_on_window_update_stream_post(
                    *old(self),
                    *final(self),
                    *header,
                    increment,
                    r,
                )))
                &&& (r matches Ok(Some((sid, _))) ==> sid == header.stream_id || header.ty
                    == FrameType::PushPromise)
            }),
    {
        match self.state.continuation {
            Some((sid, _)) => {
                if !(matches!(header.ty, FrameType::Continuation) && header.stream_id == sid) {
                    return Err(ErrorType::ProtocolError);
                }
            },
            None => {},
        }
        if header.stream_id > self.state.last_peer_stream {
            self.state.last_peer_stream = header.stream_id;
        }
        match payload {
            FramePayload::Settings { params } => {
                if header.stream_id != 0 {
                    return Err(ErrorType::ProtocolError);
                }
                if has_flag(header.flags, FLAG_ACK) {
                    Ok(None)
                } else {
                    self.on_settings(header, params)
                }
            },
            FramePayload::Ping { data } => {
                if header.stream_id != 0 {
                    return Err(ErrorType::ProtocolError);
                }
                if has_flag(header.flags, FLAG_ACK) {
                    Ok(None)
                } else {
                    let ghost echoed = data@;
                    let ack = FramePayload::Ping { data };
                    assert(ack@ == (PayloadView::Ping { data: echoed }));
                    ack.write_into(&mut self.state.write_buf, 0, FLAG_ACK);
                    Ok(None)
                }
            },
            FramePayload::GoAway { last_stream, error, debug: _ } => {
                if header.stream_id != 0 {
                    return Err(ErrorType::ProtocolError);
                }
                self.state.goaway = Some((last_stream, error));
                Ok(None)
            },
            FramePayload::WindowUpdate { increment } => {
                if header.stream_id == 0 {
                    match self.credit_connection_window(increment) {
                        Ok(()) => Ok(None),
                        Err(e) => Err(e),
                    }
                } else {
                    self.on_window_update_stream(header, increment)
                }
            },
            FramePayload::Data { data } => {
                if header.stream_id == 0 {
                    return Err(ErrorType::ProtocolError);
                }
                self.on_data(header, data)
            },
            FramePayload::Headers { dependency, exclusive_dependency, weight, fragment } => {
                if header.stream_id == 0 {
                    return Err(ErrorType::ProtocolError);
                }
                self.on_headers(header, dependency, exclusive_dependency, weight, fragment)
            },
            FramePayload::Priority { dependency, exclusive_dependency, weight } => {
                if header.stream_id == 0 {
                    return Err(ErrorType::ProtocolError);
                }
                self.on_priority(header, dependency, exclusive_dependency, weight)
            },
            FramePayload::ResetStream { error } => {
                if header.stream_id == 0 {
                    return Err(ErrorType::ProtocolError);
                }
                self.on_reset_stream(header, error)
            },
            FramePayload::PushPromise { promised_stream, fragment } => {
                if header.stream_id == 0 {
                    return Err(ErrorType::ProtocolError);
                }
                self.on_push_promise(header, promised_stream, fragment)
            },
            FramePayload::Continuation { fragment } => {
                if header.stream_id == 0 {
                    return Err(ErrorType::ProtocolError);
                }
                if matches!(self.state.continuation, None) {
                    // CONTINUATION with no open header block
                    return Err(ErrorType::ProtocolError);
                }
                self.on_continuation(header, fragment)
            },
        }
    }
}

/// The CONTINUATION frames a long header fragment is split into, each at
/// most `maxf` octets, END_HEADERS on the last.
pub open spec fn spec_cont_frames(frag: Seq<u8>, id: StreamId, maxf: int) -> Seq<u8>
    decreases frag.len()
    when maxf >= 1
{
    if frag.len() <= maxf {
        spec_frame_bytes(PayloadView::Continuation { fragment: frag }, FLAG_END_HEADERS, id)
    } else {
        spec_frame_bytes(PayloadView::Continuation { fragment: frag.take(maxf) }, 0, id)
            + spec_cont_frames(frag.skip(maxf), id, maxf)
    }
}

/// A header block on the wire: one HEADERS frame, and CONTINUATION frames
/// for whatever exceeds the peer's frame-size limit; END_STREAM rides the
/// HEADERS frame when the request has no body.
pub open spec fn spec_headers_frames(
    frag: Seq<u8>,
    id: StreamId,
    maxf: int,
    end_stream: bool,
) -> Seq<u8> {
    let es: u8 = if end_stream {
        FLAG_END_STREAM
    } else {
        0
    };
    if frag.len() <= maxf {
        spec_frame_bytes(
            PayloadView::Headers {
                dependency: None,
                exclusive_dependency: None,
                weight: None,
                fragment: frag,
            },
            (FLAG_END_HEADERS + es) as u8,
            id,
        )
    } else {
        spec_frame_bytes(
            PayloadView::Headers {
                dependency: None,
                exclusive_dependency: None,
                weight: None,
                fragment: frag.take(maxf),
            },
            es,
            id,
        ) + spec_cont_frames(frag.skip(maxf), id, maxf)
    }
}

/// A body on the wire: DATA frames of at most `maxf` octets, END_STREAM on
/// the last; an empty body sends nothing (END_STREAM rode the HEADERS).
pub open spec fn spec_body_frames(body: Seq<u8>, id: StreamId, maxf: int) -> Seq<u8>
    decreases body.len()
    when maxf >= 1
{
    if body.len() == 0 {
        Seq::empty()
    } else if body.len() <= maxf {
        spec_frame_bytes(PayloadView::Data { data: body }, FLAG_END_STREAM, id)
    } else {
        spec_frame_bytes(PayloadView::Data { data: body.take(maxf) }, 0, id) + spec_body_frames(
            body.skip(maxf),
            id,
            maxf,
        )
    }
}

/// Writes the CONTINUATION frames for `frag[pos..]`.
fn write_cont_frames(buffer: &mut Vec<u8>, frag: &Vec<u8>, pos: usize, id: StreamId, maxf: u32)
    requires
        1 <= maxf < 0x1000000,
        pos <= frag.len(),
        id <= U31_MAX,
    ensures
        final(buffer)@ == old(buffer)@ + spec_cont_frames(frag@.skip(pos as int), id, maxf as int),
    decreases frag.len() - pos,
{
    let ghost rest = frag@.skip(pos as int);
    let remaining = frag.len() - pos;
    if remaining <= maxf as usize {
        let piece = subvec(frag, pos, frag.len());
        assert(piece@ =~= rest);
        let payload = FramePayload::Continuation { fragment: piece };
        payload.write_into(buffer, id, FLAG_END_HEADERS);
    } else {
        let next = pos + maxf as usize;
        let piece = subvec(frag, pos, next);
        assert(piece@ =~= rest.take(maxf as int));
        let payload = FramePayload::Continuation { fragment: piece };
        payload.write_into(buffer, id, 0);
        assert(rest.skip(maxf as int) =~= frag@.skip(next as int));
        write_cont_frames(buffer, frag, next, id, maxf);
    }
}

/// Writes a whole header block: HEADERS and any CONTINUATION frames.
fn write_headers_frames(
    buffer: &mut Vec<u8>,
    frag: &Vec<u8>,
    id: StreamId,
    maxf: u32,
    end_stream: bool,
)
    requires
        1 <= maxf < 0x1000000,
        id <= U31_MAX,
    ensures
        final(buffer)@ == old(buffer)@ + spec_headers_frames(
            frag@,
            id,
            maxf as int,
            end_stream,
        ),
{
    let es: u8 = if end_stream {
        FLAG_END_STREAM
    } else {
        0
    };
    if frag.len() <= maxf as usize {
        let piece = subvec(frag, 0, frag.len());
        assert(piece@ =~= frag@);
        let payload = FramePayload::Headers {
            dependency: None,
            exclusive_dependency: None,
            weight: None,
            fragment: piece,
        };
        payload.write_into(buffer, id, FLAG_END_HEADERS + es);
    } else {
        let piece = subvec(frag, 0, maxf as usize);
        assert(piece@ =~= frag@.take(maxf as int));
        let payload = FramePayload::Headers {
            dependency: None,
            exclusive_dependency: None,
            weight: None,
            fragment: piece,
        };
        payload.write_into(buffer, id, es);
        assert(frag@.skip(maxf as int) =~= frag@.skip(maxf as int));
        write_cont_frames(buffer, frag, maxf as usize, id, maxf);
    }
}

/// Writes a whole body: DATA frames, END_STREAM on the last.
fn write_body_frames(buffer: &mut Vec<u8>, body: &Vec<u8>, pos: usize, id: StreamId, maxf: u32)
    requires
        1 <= maxf < 0x1000000,
        pos <= body.len(),
        id <= U31_MAX,
    ensures
        final(buffer)@ == old(buffer)@ + spec_body_frames(body@.skip(pos as int), id, maxf as int),
    decreases body.len() - pos,
{
    let ghost rest = body@.skip(pos as int);
    let remaining = body.len() - pos;
    if remaining == 0 {
        assert(rest.len() == 0);
        assert(old(buffer)@ + Seq::<u8>::empty() =~= old(buffer)@);
    } else if remaining <= maxf as usize {
        let piece = subvec(body, pos, body.len());
        assert(piece@ =~= rest);
        let payload = FramePayload::Data { data: piece };
        payload.write_into(buffer, id, FLAG_END_STREAM);
    } else {
        let next = pos + maxf as usize;
        let piece = subvec(body, pos, next);
        assert(piece@ =~= rest.take(maxf as int));
        let payload = FramePayload::Data { data: piece };
        payload.write_into(buffer, id, 0);
        assert(rest.skip(maxf as int) =~= body@.skip(next as int));
        write_body_frames(buffer, body, next, id, maxf);
    }
}

/// A header name or value too long for the compressed encoding's 32-bit
/// lengths.
pub open spec fn spec_request_oversize(request: Request) -> bool {
    exists|j: int|
        0 <= j < spec_request_header_list(request).len() && ((#[trigger] spec_request_header_list(
            request,
        )[j]).0.len() > u32::MAX || spec_request_header_list(request)[j].1.len() > u32::MAX)
}

/// The flow-control windows cannot take the request's body yet: the
/// connection window, the window the new stream would start with, or the
/// window of a stream already stored under the identifier about to be
/// allocated.
pub open spec fn spec_request_blocked(c: Connection, request: Request) -> bool {
    let body = request.body@.len() as int;
    ||| body > U31_MAX as int
    ||| body > c.state.window_remaining as int
    ||| body > c.state.their_settings.initial_window_size as int
    ||| (spec_find_stream(c.streams.streams@, c.streams.next_id) matches Some(s) && body
        > s.window_remaining as int)
}

impl Connection {
    /// Admits one request: allocates the next odd stream identifier,
    /// registers the caller as waiting, debits both send windows for the
    /// body, and queues the HEADERS (with CONTINUATION as needed) and DATA
    /// frames. The header names go out lowercased, pseudo-headers first.
    #[verifier::rlimit(100)]
    #[verifier::spinoff_prover]
    pub fn request(&mut self, request: &Request) -> (r: Result<StreamId, RequestError>)
        requires
            old(self).wf(),
        ensures
            final(self).wf(),
            ({
                let oversize = spec_request_oversize(*request);
                let blocked = spec_request_blocked(*old(self), *request);
                let no_host = request.url.host@.len() == 0;
                match r {
                    Ok(id) => {
                        &&& !no_host
                        &&& !oversize
                        &&& !blocked
                        &&& old(self).streams.next_id <= U31_MAX
                        &&& id % 2 == 1
                        &&& StreamCoordinator::spec_allocates(
                            old(self).streams,
                            final(self).streams,
                            id,
                        )
                        &&& final(self).state.write_buf@ == old(self).state.write_buf@
                            + spec_headers_frames(
                            crate::hpack::spec_enc_block(spec_request_header_list(*request)),
                            id,
                            old(self).state.their_settings.max_frame_size as int,
                            request.body@.len() == 0,
                        ) + spec_body_frames(
                            request.body@,
                            id,
                            old(self).state.their_settings.max_frame_size as int,
                        )
                        &&& (spec_find_stream(final(self).streams.streams@, id) matches Some(s2)
                            && s2.wants_response && s2.window_remaining as int == spec_pre_window(
                            spec_find_stream(old(self).streams.streams@, id),
                            old(self).state.their_settings.initial_window_size,
                        ) - request.body@.len())
                        &&& final(self).state.window_remaining == old(self).state.window_remaining
                            - request.body@.len() as i64
                        &&& (forall|o: StreamId|
                            o != id ==> spec_find_stream(final(self).streams.streams@, o)
                                == spec_find_stream(old(self).streams.streams@, o))
                    },
                    Err(RequestError::AuthorityCannotBeBase) => no_host && final(self).state.write_buf == old(self).state.write_buf,
                    Err(RequestError::RequestTooLarge) => !no_host && oversize && final(self).state.write_buf == old(self).state.write_buf,
                    Err(RequestError::FlowControlBlocked) => !no_host && !oversize && blocked
                        && final(self).state.write_buf == old(self).state.write_buf,
                    Err(RequestError::OutOfStreamIds) => !no_host && !oversize && !blocked && old(self).streams.next_id > U31_MAX && final(self).state.write_buf == old(self).state.write_buf,
                }
            }),
    {
        let list = match request.build_header_list() {
            Ok(list) => list,
            Err(e) => {
                return Err(e);
            },
        };
        let ghost spec_list = spec_request_header_list(*request);
        assert(crate::hpack::spec_headers_view(list@) == spec_list);
        assert(forall|j: int|
            0 <= j < list@.len() ==> (#[trigger] spec_list[j]) == (list@[j].0@, list@[j].1@));
        // the compressed encoding carries lengths as 32-bit integers
        let mut k: usize = 0;
        while k < list.len()
            invariant
                k <= list@.len(),
                self.wf(),
                *self == *old(self),
                spec_list == spec_request_header_list(*request),
                request.url.host@.len() > 0,
                spec_list.len() == list@.len(),
                forall|j: int|
                    0 <= j < list@.len() ==> (#[trigger] spec_list[j]) == (
                        list@[j].0@,
                        list@[j].1@,
                    ),
                forall|j: int|
                    0 <= j < k ==> (#[trigger] list@[j]).0@.len() <= u32::MAX && list@[j].1@.len()
                        <= u32::MAX,
            decreases list@.len() - k,
        {
            if list[k].0.len() > u32::MAX as usize || list[k].1.len() > u32::MAX as usize {
                assert(spec_list[k as int].0.len() > u32::MAX || spec_list[k as int].1.len()
                    > u32::MAX);
                assert(spec_request_oversize(*request));
                return Err(RequestError::RequestTooLarge);
            }
            k = k + 1;
        }
        assert(!spec_request_oversize(*request)) by {
            assert(forall|j: int|
                0 <= j < spec_list.len() ==> (#[trigger] spec_list[j]).0.len() <= u32::MAX
                    && spec_list[j].1.len() <= u32::MAX);
        }
        let fragment = self.state.header_encoder.encode(&list);
        let maxf = self.state.their_settings.max_frame_size;
        let initial = self.state.their_settings.initial_window_size;
        // sends wait until the windows cover the whole body
        if request.body.len() > U31_MAX as usize {
            assert(spec_request_blocked(*old(self), *request));
            return Err(RequestError::FlowControlBlocked);
        }
        let body_len = request.body.len() as u32;
        if body_len as i64 > self.state.window_remaining || body_len > initial {
            assert(spec_request_blocked(*old(self), *request));
            return Err(RequestError::FlowControlBlocked);
        }
        let ghost s0 = self.streams.streams@;
        match self.streams.create_mut(initial) {
            None => {
                proof {
                    // identifiers above the 31-bit space are never stored
                    assert(forall|j: int|
                        0 <= j < s0.len() ==> (#[trigger] s0[j]).id != old(self).streams.next_id);
                    crate::stream_coordinator::lemma_find_stream_absent(
                        s0,
                        old(self).streams.next_id,
                    );
                }
                Err(RequestError::OutOfStreamIds)
            },
            Some((id, i)) => {
                let ghost mid = self.streams.streams@;
                proof {
                    lemma_get_mut_find(s0, mid, i as int, id, initial);
                }
                let ghost found = spec_find_stream(s0, id);
                let mut s = self.streams.streams.remove(i);
                assert(s.window_remaining == spec_pre_window(found, initial));
                if body_len as i64 > s.window_remaining {
                    self.streams.streams.insert(i, s);
                    proof {
                        assert(self.streams.streams@ =~= mid.update(
                            i as int,
                            self.streams.streams@[i as int],
                        ));
                        assert(spec_request_blocked(*old(self), *request));
                    }
                    return Err(RequestError::FlowControlBlocked);
                }
                assert(!spec_request_blocked(*old(self), *request));
                s.wants_response = true;
                // the sent HEADERS (and final DATA) move the stream through
                // its send-side transitions
                let headers_flags: u8 = if body_len == 0 {
                    FLAG_END_HEADERS + FLAG_END_STREAM
                } else {
                    FLAG_END_HEADERS
                };
                match s.transition_state(false, FrameType::Headers, headers_flags) {
                    Ok(()) => {},
                    Err(_) => {},
                }
                if body_len > 0 {
                    s.debit_window(body_len);
                    match s.transition_state(false, FrameType::Data, FLAG_END_STREAM) {
                        Ok(()) => {},
                        Err(_) => {},
                    }
                }
                self.streams.streams.insert(i, s);
                proof {
                    assert(self.streams.streams@ =~= mid.update(
                        i as int,
                        self.streams.streams@[i as int],
                    ));
                    lemma_put_back_find(
                        mid,
                        self.streams.streams@,
                        i as int,
                        self.streams.streams@[i as int],
                    );
                }
                if body_len > 0 {
                    self.state.window_remaining = self.state.window_remaining - body_len as i64;
                    proof {
                        self.state.conn_data_sent@ = self.state.conn_data_sent@ + body_len as int;
                    }
                }
                write_headers_frames(
                    &mut self.state.write_buf,
                    &fragment,
                    id,
                    maxf,
                    request.body.len() == 0,
                );
                assert(request.body@.skip(0) =~= request.body@);
                write_body_frames(&mut self.state.write_buf, &request.body, 0, id, maxf);
                proof {
                    assert(self.state.write_buf@ =~= old(self).state.write_buf@ + (
                    spec_headers_frames(
                        crate::hpack::spec_enc_block(spec_list),
                        id,
                        maxf as int,
                        request.body@.len() == 0,
                    ) + spec_body_frames(request.body@, id, maxf as int)));
                }
                Ok(id)
            },
        }
    }
}

/// The byte string `b` ends with `suffix`.
pub open spec fn spec_ends_with(b: Seq<u8>, suffix: Seq<u8>) -> bool {
    b.len() >= suffix.len() && b.skip(b.len() - suffix.len()) == suffix
}

impl Connection {
    /// Resolves every outstanding wait with the connection error: once the
    /// connection is going down, no caller is left hanging.
    fn fail_all(&mut self, error: ErrorType, events: &mut Vec<StreamEvent>)
        requires
            old(self).wf(),
        ensures
            final(self).wf(),
            final(self).state == old(self).state,
            forall|i: int|
                0 <= i < final(self).streams.streams@.len() ==> !(
                #[trigger] final(self).streams.streams@[i]).wants_response,
    {
        let mut i: usize = 0;
        while i < self.streams.streams.len()
            invariant
                self.wf(),
                self.state == old(self).state,
                i <= self.streams.streams@.len(),
                forall|k: int|
                    0 <= k < i ==> !(#[trigger] self.streams.streams@[k]).wants_response,
            decreases self.streams.streams@.len() - i,
        {
            let ghost before = self.streams.streams@;
            let mut s = self.streams.streams.remove(i);
            if s.wants_response {
                s.wants_response = false;
                events.push((s.id, Err(error)));
            }
            self.streams.streams.insert(i, s);
            proof {
                assert(forall|k: int|
                    0 <= k < self.streams.streams@.len()
                        ==> #[trigger] self.streams.streams@[k].id == before[k].id);
            }
            i = i + 1;
        }
    }

    /// A connection error: GOAWAY goes out with the code and the last peer
    /// stream processed, and every outstanding wait resolves with the
    /// error.
    fn connection_error(&mut self, error: ErrorType, events: &mut Vec<StreamEvent>)
        requires
            old(self).wf(),
        ensures
            final(self).wf(),
            spec_ends_with(
                final(self).state.write_buf@,
                spec_goaway(final(self).state.last_peer_stream, error),
            ),
            forall|i: int|
                0 <= i < final(self).streams.streams@.len() ==> !(
                #[trigger] final(self).streams.streams@[i]).wants_response,
    {
        self.queue_goaway(error);
        let ghost wb = self.state.write_buf@;
        let ghost tail = spec_goaway(self.state.last_peer_stream, error);
        assert(wb.skip(wb.len() - tail.len()) =~= tail);
        self.fail_all(error, events);
    }

    /// Feeds received transport bytes to the engine: buffers them, parses
    /// and dispatches every complete frame (skipping frames of unknown
    /// type, which are a PROTOCOL_ERROR only while a header block is open),
    /// and hands back the responses and stream errors that completed
    /// together with the connection's fate. On success nothing complete is
    /// left undispatched: what remains buffered is a suffix of what was
    /// buffered — no byte is lost while waiting for the rest of a frame —
    /// and is short of a whole frame. On a connection error GOAWAY is
    /// queued and every remaining wait has been resolved into the events.
    pub fn receive(&mut self, bytes: &Vec<u8>) -> (r: (
        Vec<StreamEvent>,
        Result<(), ErrorType>,
    ))
        requires
            old(self).wf(),
        ensures
            final(self).wf(),
            ({
                let incoming = old(self).state.read_buf@.skip(old(self).state.read_pos as int)
                    + bytes@;
                r.1 is Ok ==> final(self).state.read_pos == 0 && (exists|n: int|
                    0 <= n <= incoming.len() && final(self).state.read_buf@ == incoming.skip(n))
            }),
            r.1 is Ok ==> ({
                let rb = final(self).state.read_buf@;
                match final(self).state.header {
                    Some(h) => rb.len() < h.length,
                    None => rb.len() < 9 || (FrameType::spec_from_u8(rb[3]) is None && rb.len() < 9
                        + spec_u24_be(rb[0], rb[1], rb[2])),
                }
            }),
            r.1 matches Err(e) ==> spec_ends_with(
                final(self).state.write_buf@,
                spec_goaway(final(self).state.last_peer_stream, e),
            ) && (forall|i: int|
                0 <= i < final(self).streams.streams@.len() ==> !(
                #[trigger] final(self).streams.streams@[i]).wants_response),
    {
        crate::frame::append_bytes(&mut self.state.read_buf, bytes);
        let mut events: Vec<StreamEvent> = Vec::new();
        loop
            invariant
                self.wf(),
                self.state.read_buf@ == old(self).state.read_buf@ + bytes@,
                old(self).state.read_pos <= self.state.read_pos,
            ensures
                self.wf(),
                self.state.read_buf@ == old(self).state.read_buf@ + bytes@,
                old(self).state.read_pos <= self.state.read_pos,
                ({
                    let avail = self.state.read_buf@.len() - self.state.read_pos;
                    match self.state.header {
                        Some(h) => avail < h.length,
                        None => avail < 9 || (FrameType::spec_from_u8(
                            self.state.read_buf@[self.state.read_pos + 3],
                        ) is None && avail < 9 + spec_u24_be(
                            self.state.read_buf@[self.state.read_pos as int],
                            self.state.read_buf@[self.state.read_pos + 1],
                            self.state.read_buf@[self.state.read_pos + 2],
                        )),
                    }
                }),
            decreases
                    self.state.read_buf@.len() - self.state.read_pos,
                    (match self.state.header {
                        Some(_) => 1int,
                        None => 0int,
                    }),
        {
            let avail = self.state.read_buf.len() - self.state.read_pos;
            match self.state.header {
                Some(header) => {
                    if avail < header.length as usize {
                        break ;
                    }
                    let start = self.state.read_pos;
                    let end = start + header.length as usize;
                    let payload_bytes = subvec(&self.state.read_buf, start, end);
                    self.state.read_pos = end;
                    self.state.header = None;
                    match FramePayload::try_from(&payload_bytes, &header) {
                        Ok(payload) => {
                            proof {
                                crate::frame::lemma_parse_wf(payload_bytes@, header);
                            }
                            match self.handle_frame(&header, payload) {
                                Ok(Some(event)) => {
                                    events.push(event);
                                },
                                Ok(None) => {},
                                Err(e) => {
                                    self.connection_error(e, &mut events);
                                    return (events, Err(e));
                                },
                            }
                        },
                        Err(FrameError::Connection(e)) => {
                            self.connection_error(e, &mut events);
                            return (events, Err(e));
                        },
                        Err(FrameError::Stream(e)) => {
                            if header.stream_id != 0 {
                                self.queue_rst_stream(header.stream_id, e);
                                let initial = self.state.their_settings.initial_window_size;
                                let i = self.streams.get_mut(header.stream_id, initial);
                                let ghost before = self.streams.streams@;
                                let mut s = self.streams.streams.remove(i);
                                let wanted = s.wants_response;
                                s.wants_response = false;
                                let sid = s.id;
                                self.streams.streams.insert(i, s);
                                proof {
                                    assert(forall|k: int|
                                        0 <= k < self.streams.streams@.len()
                                            ==> #[trigger] self.streams.streams@[k].id
                                            == before[k].id);
                                }
                                if wanted {
                                    events.push((sid, Err(e)));
                                }
                            }
                        },
                    }
                },
                None => {
                    if avail < 9 {
                        break ;
                    }
                    let pos = self.state.read_pos;
                    let type_octet = self.state.read_buf[pos + 3];
                    match crate::types::FrameType::from_u8(type_octet) {
                        None => {
                            // an unknown frame type is skipped whole, unless
                            // a header block is open
                            if matches!(self.state.continuation, Some(_)) {
                                self.connection_error(ErrorType::ProtocolError, &mut events);
                                return (events, Err(ErrorType::ProtocolError));
                            }
                            let length = self.state.read_buf[pos] as usize * 0x10000
                                + self.state.read_buf[pos + 1] as usize * 0x100
                                + self.state.read_buf[pos + 2] as usize;
                            assert(length == spec_u24_be(
                                self.state.read_buf@[pos as int],
                                self.state.read_buf@[pos + 1],
                                self.state.read_buf@[pos + 2],
                            ));
                            if avail < 9 + length {
                                break ;
                            }
                            self.state.read_pos = pos + 9 + length;
                        },
                        Some(_) => {
                            match FrameHeader::try_from(&self.state.read_buf, pos) {
                                Ok(header) => {
                                    assert(header.wf());
                                    self.state.read_pos = pos + 9;
                                    self.state.header = Some(header);
                                },
                                Err(_) => {
                                    proof {
                                        let b = self.state.read_buf@.skip(pos as int);
                                        assert(b.len() >= 9);
                                        assert(b[3] == self.state.read_buf@[pos + 3]);
                                        assert(false);
                                    }
                                    break ;
                                },
                            }
                        },
                    }
                },
            }
        }
        // drop the consumed prefix
        let ghost consumed = self.state.read_pos as int;
        let ghost incoming = old(self).state.read_buf@.skip(old(self).state.read_pos as int)
            + bytes@;
        let remaining = subvec(&self.state.read_buf, self.state.read_pos, self.state.read_buf.len());
        proof {
            let n = consumed - old(self).state.read_pos as int;
            assert(remaining@ =~= incoming.skip(n));
        }
        self.state.read_buf = remaining;
        self.state.read_pos = 0;
        (events, Ok(()))
    }
}

/// Flow-control accounting never leaks and never overflows: on a
/// well-formed connection, the connection-level window and every stream's
/// window stay at or below `2^31 - 1`, and each window equals what the peer
/// seeded plus the WINDOW_UPDATE increments received minus the DATA octets
/// sent, so the sum over all streams of the send-window deltas equals the
/// sum of increments received minus the octets sent.
pub proof fn lemma_flow_control_accounting(c: Connection)
    requires
        c.wf(),
    ensures
        c.state.window_remaining <= U31_MAX as i64,
        c.state.window_remaining as int == c.state.window_base@ + c.state.conn_wu_received@
            - c.state.conn_data_sent@,
        forall|i: int|
            0 <= i < c.streams.streams@.len() ==> (#[trigger] c.streams.streams@[i]).window_remaining
                <= U31_MAX as i64,
        forall|i: int|
            0 <= i < c.streams.streams@.len() ==> (
            #[trigger] c.streams.streams@[i]).window_remaining as int
                == c.streams.streams@[i].window_base@ + c.streams.streams@[i].wu_received@
                - c.streams.streams@[i].data_sent@,
{
}

} // verus!
