//! Per-stream state: the seven-state lifecycle of RFC 7540 §5.1, header and
//! body reassembly across CONTINUATION boundaries, the per-stream send
//! window, and response completion.

use vstd::prelude::*;

use crate::frame::FLAG_END_HEADERS;
use crate::frame::FLAG_END_STREAM;
use crate::frame::spec_has_flag;
use crate::frame::has_flag;
use crate::hpack::Decoder;
use crate::hpack::spec_dec_block;
use crate::hpack::spec_headers_view;
use crate::response::Response;
use crate::types::ErrorType;
use crate::types::FrameType;
use crate::types::HpackError;
use crate::types::StreamId;
use crate::types::U31_MAX;

verus! {

/// The stream states of RFC 7540 §5.1.
#[derive(Debug, Clone, Copy, PartialEq, Eq, Structural)]
pub enum StreamState {
    Idle,
    ReservedLocal,
    ReservedRemote,
    Open,
    HalfClosedLocal,
    HalfClosedRemote,
    Closed,
}

/// What kind of header block a pending CONTINUATION sequence completes.
#[derive(Debug, Clone, Copy, PartialEq, Eq, Structural)]
pub enum Continuing {
    Headers,
    PushPromise,
}

/// The transition the stream takes on an event: `recv` or send, a frame
/// type, and the frame's flag octet, as §5.1 tabulates. RST_STREAM closes
/// any stream but is a protocol error on an idle one; most frames on a
/// closed stream are a STREAM_CLOSED stream error.
pub open spec fn spec_transition(
    state: StreamState,
    continuing: Option<Continuing>,
    recv: bool,
    ty: FrameType,
    flags: u8,
) -> Result<StreamState, ErrorType> {
    let send = !recv;
    if ty == FrameType::ResetStream {
        if state == StreamState::Idle {
            Err(ErrorType::ProtocolError)
        } else {
            Ok(StreamState::Closed)
        }
    } else if recv && state == StreamState::Closed && ty != FrameType::Priority && ty
        != FrameType::WindowUpdate && ty != FrameType::Continuation {
        Err(ErrorType::StreamClosed)
    } else {
        let h = if ty == FrameType::Headers {
            spec_has_flag(flags, FLAG_END_HEADERS)
        } else if ty == FrameType::Continuation {
            continuing == Some(Continuing::Headers) && spec_has_flag(flags, FLAG_END_HEADERS)
        } else {
            false
        };
        let pp = if ty == FrameType::PushPromise {
            spec_has_flag(flags, FLAG_END_HEADERS)
        } else if ty == FrameType::Continuation {
            continuing == Some(Continuing::PushPromise) && spec_has_flag(flags, FLAG_END_HEADERS)
        } else {
            false
        };
        let es = if ty == FrameType::Data || ty == FrameType::Headers {
            spec_has_flag(flags, FLAG_END_STREAM)
        } else {
            false
        };
        let s1 = if state == StreamState::Idle {
            if send && pp {
                StreamState::ReservedLocal
            } else if recv && pp {
                StreamState::ReservedRemote
            } else if h {
                StreamState::Open
            } else {
                state
            }
        } else {
            state
        };
        let s2 = if s1 == StreamState::ReservedLocal && send && h {
            StreamState::HalfClosedRemote
        } else {
            s1
        };
        let s3 = if s2 == StreamState::ReservedRemote && recv && h {
            StreamState::HalfClosedLocal
        } else {
            s2
        };
        let s4 = if s3 == StreamState::Open && send && es {
            StreamState::HalfClosedLocal
        } else {
            s3
        };
        let s5 = if s4 == StreamState::Open && recv && es {
            StreamState::HalfClosedRemote
        } else {
            s4
        };
        let s6 = if s5 == StreamState::HalfClosedRemote && send && es {
            StreamState::Closed
        } else {
            s5
        };
        let s7 = if s6 == StreamState::HalfClosedLocal && recv && es {
            StreamState::Closed
        } else {
            s6
        };
        Ok(s7)
    }
}

/// Copies a header list.
pub fn copy_headers(v: &Vec<(Vec<u8>, Vec<u8>)>) -> (r: Vec<(Vec<u8>, Vec<u8>)>)
    ensures
        spec_headers_view(r@) == spec_headers_view(v@),
        r@.len() == v@.len(),
{
    let mut out: Vec<(Vec<u8>, Vec<u8>)> = Vec::new();
    let mut i: usize = 0;
    while i < v.len()
        invariant
            i <= v.len(),
            out@.len() == i,
            forall|j: int|
                0 <= j < i ==> (#[trigger] out@[j]).0@ == v@[j].0@ && out@[j].1@ == v@[j].1@,
        decreases v.len() - i,
    {
        let name = crate::frame::subvec(&v[i].0, 0, v[i].0.len());
        let value = crate::frame::subvec(&v[i].1, 0, v[i].1.len());
        assert(name@ =~= v@[i as int].0@ && value@ =~= v@[i as int].1@);
        out.push((name, value));
        i = i + 1;
    }
    assert(spec_headers_view(out@) =~= spec_headers_view(v@));
    out
}

/// One logical stream: its lifecycle state, the send window the peer
/// grants, reassembly buffers, and whether a caller still waits for the
/// response.
pub struct Stream {
    pub id: StreamId,
    pub state: StreamState,
    pub continuing: Option<Continuing>,
    pub window_remaining: i64,
    pub dependency: Option<StreamId>,
    pub exclusive_dependency: Option<bool>,
    pub weight: Option<u8>,
    pub headers_buffer: Vec<u8>,
    pub body_buffer: Vec<u8>,
    pub response_headers: Vec<(Vec<u8>, Vec<u8>)>,
    pub wants_response: bool,
    pub window_base: Ghost<int>,
    pub wu_received: Ghost<int>,
    pub data_sent: Ghost<int>,
}

impl Stream {
    /// The stream identifier is a nonzero 31-bit value, the window stays in
    /// the signed 31-bit range, and the window always equals what the peer
    /// seeded plus every WINDOW_UPDATE received minus every DATA octet
    /// sent: flow-control accounting never leaks.
    pub open spec fn wf(self) -> bool {
        &&& 0 < self.id <= U31_MAX
        &&& -(U31_MAX as int) <= self.window_remaining as int <= U31_MAX as int
        &&& self.window_remaining as int == self.window_base@ + self.wu_received@
            - self.data_sent@
    }

    /// A stream exactly as `new` constructs it: idle, empty buffers, the
    /// window seeded from the peer's initial window size.
    pub open spec fn is_fresh(self, id: StreamId, window_remaining: u32) -> bool {
        &&& self.id == id
        &&& self.state == StreamState::Idle
        &&& self.continuing is None
        &&& self.window_remaining == window_remaining as i64
        &&& self.dependency is None
        &&& self.exclusive_dependency is None
        &&& self.weight is None
        &&& self.headers_buffer@ == Seq::<u8>::empty()
        &&& self.body_buffer@ == Seq::<u8>::empty()
        &&& self.response_headers@ == Seq::<(Vec<u8>, Vec<u8>)>::empty()
        &&& !self.wants_response
        &&& self.window_base@ == window_remaining as int
        &&& self.wu_received@ == 0
        &&& self.data_sent@ == 0
    }

    pub fn new(id: StreamId, window_remaining: u32) -> (r: Stream)
        requires
            0 < id <= U31_MAX,
            window_remaining <= U31_MAX,
        ensures
            r.wf(),
            r.is_fresh(id, window_remaining),
            r.id == id,
            r.state == StreamState::Idle,
            r.continuing is None,
            r.window_remaining == window_remaining as i64,
            r.headers_buffer@ =~= Seq::<u8>::empty(),
            r.body_buffer@ =~= Seq::<u8>::empty(),
            r.response_headers@ =~= Seq::<(Vec<u8>, Vec<u8>)>::empty(),
            !r.wants_response,
            r.window_base@ == window_remaining as int,
            r.wu_received@ == 0,
            r.data_sent@ == 0,
    {
        Stream {
            id,
            state: StreamState::Idle,
            continuing: None,
            window_remaining: window_remaining as i64,
            dependency: None,
            exclusive_dependency: None,
            weight: None,
            headers_buffer: Vec::new(),
            body_buffer: Vec::new(),
            response_headers: Vec::new(),
            wants_response: false,
            window_base: Ghost(window_remaining as int),
            wu_received: Ghost(0),
            data_sent: Ghost(0),
        }
    }

    /// Takes the §5.1 transition for the event; on an error the stream is
    /// left unchanged and the caller raises the stream error.
    pub fn transition_state(&mut self, recv: bool, ty: FrameType, flags: u8) -> (r: Result<
        (),
        ErrorType,
    >)
        ensures
            ({
                let spec = spec_transition(old(self).state, old(self).continuing, recv, ty, flags);
                match r {
                    Ok(()) => spec matches Ok(s2) && *final(self) == (Stream {
                        state: s2,
                        ..*old(self)
                    }),
                    Err(e) => spec == Err::<StreamState, ErrorType>(e) && *final(self) == *old(
                        self,
                    ),
                }
            }),
    {
        let send = !recv;
        if matches!(ty, FrameType::ResetStream) {
            if matches!(self.state, StreamState::Idle) {
                return Err(ErrorType::ProtocolError);
            }
            self.state = StreamState::Closed;
            return Ok(());
        }
        if recv && matches!(self.state, StreamState::Closed) && !matches!(ty, FrameType::Priority)
            && !matches!(ty, FrameType::WindowUpdate) && !matches!(ty, FrameType::Continuation) {
            return Err(ErrorType::StreamClosed);
        }
        let h = match ty {
            FrameType::Headers => has_flag(flags, FLAG_END_HEADERS),
            FrameType::Continuation => matches!(self.continuing, Some(Continuing::Headers))
                && has_flag(flags, FLAG_END_HEADERS),
            _ => false,
        };
        let pp = match ty {
            FrameType::PushPromise => has_flag(flags, FLAG_END_HEADERS),
            FrameType::Continuation => matches!(self.continuing, Some(Continuing::PushPromise))
                && has_flag(flags, FLAG_END_HEADERS),
            _ => false,
        };
        let es = match ty {
            FrameType::Data | FrameType::Headers => has_flag(flags, FLAG_END_STREAM),
            _ => false,
        };
        if matches!(self.state, StreamState::Idle) {
            if send && pp {
                self.state = StreamState::ReservedLocal;
            } else if recv && pp {
                self.state = StreamState::ReservedRemote;
            } else if h {
                self.state = StreamState::Open;
            }
        }
        if matches!(self.state, StreamState::ReservedLocal) && send && h {
            self.state = StreamState::HalfClosedRemote;
        }
        if matches!(self.state, StreamState::ReservedRemote) && recv && h {
            self.state = StreamState::HalfClosedLocal;
        }
        if matches!(self.state, StreamState::Open) && send && es {
            self.state = StreamState::HalfClosedLocal;
        }
        if matches!(self.state, StreamState::Open) && recv && es {
            self.state = StreamState::HalfClosedRemote;
        }
        if matches!(self.state, StreamState::HalfClosedRemote) && send && es {
            self.state = StreamState::Closed;
        }
        if matches!(self.state, StreamState::HalfClosedLocal) && recv && es {
            self.state = StreamState::Closed;
        }
        Ok(())
    }

    /// Credits the send window with a WINDOW_UPDATE increment; an increment
    /// that would lift the window past `2^31 - 1` is a FLOW_CONTROL_ERROR.
    pub fn credit_window(&mut self, increment: u32) -> (r: Result<(), ErrorType>)
        requires
            old(self).wf(),
            0 < increment <= U31_MAX,
        ensures
            ({
                if old(self).window_remaining as int + increment as int <= U31_MAX as int {
                    &&& r is Ok
                    &&& *final(self) == (Stream {
                        window_remaining: (old(self).window_remaining + increment as i64) as i64,
                        wu_received: Ghost(old(self).wu_received@ + increment as int),
                        ..*old(self)
                    })
                    &&& final(self).wf()
                } else {
                    r == Err::<(), ErrorType>(ErrorType::FlowControlError) && *final(self) == *old(
                        self,
                    )
                }
            }),
    {
        let next = self.window_remaining + increment as i64;
        if next > U31_MAX as i64 {
            return Err(ErrorType::FlowControlError);
        }
        self.window_remaining = next;
        proof {
            self.wu_received@ = self.wu_received@ + increment as int;
        }
        Ok(())
    }

    /// Debits the send window for DATA octets about to be sent; sending
    /// waits until the window covers them.
    pub fn debit_window(&mut self, len: u32)
        requires
            old(self).wf(),
            len <= old(self).window_remaining,
        ensures
            final(self).wf(),
            *final(self) == (Stream {
                window_remaining: (old(self).window_remaining - len as i64) as i64,
                data_sent: Ghost(old(self).data_sent@ + len as int),
                ..*old(self)
            }),
    {
        self.window_remaining = self.window_remaining - len as i64;
        proof {
            self.data_sent@ = self.data_sent@ + len as int;
        }
    }

    /// Appends a DATA payload to the body under assembly.
    pub fn append_body(&mut self, data: &Vec<u8>)
        ensures
            *final(self) == (Stream {
                body_buffer: final(self).body_buffer,
                ..*old(self)
            }),
            final(self).body_buffer@ == old(self).body_buffer@ + data@,
    {
        crate::frame::append_bytes(&mut self.body_buffer, data);
    }

    /// Appends a header-block fragment awaiting END_HEADERS.
    pub fn append_header_fragment(&mut self, fragment: &Vec<u8>)
        ensures
            *final(self) == (Stream {
                headers_buffer: final(self).headers_buffer,
                ..*old(self)
            }),
            final(self).headers_buffer@ == old(self).headers_buffer@ + fragment@,
    {
        crate::frame::append_bytes(&mut self.headers_buffer, fragment);
    }

    /// Decodes the assembled header block through the connection's HPACK
    /// decoder, appending the fields to the decoded response headers and
    /// clearing the assembly buffer. Any failure is a COMPRESSION_ERROR for
    /// the whole connection.
    pub fn decode_headers(&mut self, header_decoder: &mut Decoder) -> (r: Result<(), HpackError>)
        requires
            old(header_decoder).wf(),
        ensures
            final(header_decoder).wf(),
            final(header_decoder).limit == old(header_decoder).limit,
            ({
                let spec = spec_dec_block(
                    old(self).headers_buffer@,
                    old(header_decoder).table@,
                    old(header_decoder).table.max_size as int,
                    old(header_decoder).limit as int,
                    true,
                );
                match r {
                    Ok(()) => {
                        &&& (spec matches Ok((hs, t2, m2)) && spec_headers_view(
                            final(self).response_headers@,
                        ) == spec_headers_view(old(self).response_headers@) + hs
                            && final(header_decoder).table@ == t2
                            && final(header_decoder).table.max_size as int == m2)
                        &&& final(self).headers_buffer@ =~= Seq::<u8>::empty()
                        &&& *final(self) == (Stream {
                            headers_buffer: final(self).headers_buffer,
                            response_headers: final(self).response_headers,
                            ..*old(self)
                        })
                    },
                    Err(e) => (spec matches Err(se) && se == e) && *final(self) == *old(self),
                }
            }),
    {
        match header_decoder.decode(&self.headers_buffer) {
            Ok(mut fields) => {
                let ghost decoded = spec_headers_view(fields@);
                let ghost before = spec_headers_view(self.response_headers@);
                let mut i: usize = 0;
                while i < fields.len()
                    invariant
                        i <= fields@.len(),
                        spec_headers_view(self.response_headers@) =~= before + spec_headers_view(
                            fields@,
                        ).subrange(0, i as int),
                        self.response_headers@.len() == old(self).response_headers@.len() + i,
                        fields@.len() == decoded.len(),
                        spec_headers_view(fields@) == decoded,
                        self.id == old(self).id && self.state == old(self).state
                            && self.continuing == old(self).continuing && self.window_remaining
                            == old(self).window_remaining && self.dependency == old(
                            self,
                        ).dependency && self.exclusive_dependency == old(
                            self,
                        ).exclusive_dependency && self.weight == old(self).weight
                            && self.headers_buffer == old(self).headers_buffer && self.body_buffer
                            == old(self).body_buffer && self.wants_response == old(
                            self,
                        ).wants_response && self.window_base == old(self).window_base
                            && self.wu_received == old(self).wu_received && self.data_sent == old(
                            self,
                        ).data_sent,
                    decreases fields@.len() - i,
                {
                    let name = crate::frame::subvec(&fields[i].0, 0, fields[i].0.len());
                    let value = crate::frame::subvec(&fields[i].1, 0, fields[i].1.len());
                    assert(name@ =~= fields@[i as int].0@ && value@ =~= fields@[i as int].1@);
                    let ghost prev = spec_headers_view(self.response_headers@);
                    self.response_headers.push((name, value));
                    assert(spec_headers_view(self.response_headers@) =~= prev + seq![
                        (fields@[i as int].0@, fields@[i as int].1@),
                    ]);
                    assert((before + spec_headers_view(fields@).subrange(0, i as int)) + seq![
                        (fields@[i as int].0@, fields@[i as int].1@),
                    ] =~= before + spec_headers_view(fields@).subrange(0, i as int + 1));
                    i = i + 1;
                }
                assert(spec_headers_view(fields@).subrange(0, fields@.len() as int)
                    =~= spec_headers_view(fields@));
                self.headers_buffer = Vec::new();
                assert(self.headers_buffer@ =~= Seq::<u8>::empty());
                Ok(())
            },
            Err(e) => Err(e),
        }
    }

    /// Completes the response if a caller still waits for one: the decoded
    /// headers and the assembled body, delivered exactly once.
    pub fn take_response(&mut self) -> (r: Option<Response>)
        ensures
            *final(self) == (Stream {
                wants_response: false,
                ..*old(self)
            }),
            ({
                match r {
                    Some(resp) => old(self).wants_response && resp.headers_view()
                        == spec_headers_view(old(self).response_headers@) && resp.body@ == old(
                        self,
                    ).body_buffer@,
                    None => !old(self).wants_response,
                }
            }),
    {
        if self.wants_response {
            self.wants_response = false;
            let headers = copy_headers(&self.response_headers);
            let body = crate::frame::subvec(&self.body_buffer, 0, self.body_buffer.len());
            assert(body@ =~= self.body_buffer@);
            Some(Response { headers, body })
        } else {
            None
        }
    }
}

} // verus!
