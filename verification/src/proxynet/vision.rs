//! Vision: the beginning of a connection in padded frames.

use vstd::prelude::*;

use crate::codec;
use crate::proxynet::outgoing;
use crate::proxynet::outgoing::Outgoing;
use crate::random;
use crate::text;

verus! {

/// The flow that pads the beginning of a connection.
pub const VISION_FLOW: &'static str = "xtls-rprx-vision";

pub const HEADER_SIZE: usize = 5;

pub const CMD_CONTINUE: u8 = 0x00;

pub const CMD_END: u8 = 0x01;

pub const CMD_DIRECT: u8 = 0x02;

pub const MAX_FRAME: usize = 8192;

pub const MAX_PADDING_ONLY: u32 = 64;

/// The first byte of a TLS record with application data.
pub const TLS_APP: u8 = 0x17;

#[derive(Clone, Copy, Debug, PartialEq, Eq, Structural)]
pub enum Mode {
    Undecided,
    Framed,
    Raw,
}

// ---- reading ----
/// What was read of the server's side: bytes that are not used yet, and the
/// frame that is being read.
#[verifier::ext_equal]
pub struct DownView {
    pub mode: Mode,
    pub buffer: Seq<u8>,
    pub command: u8,
    pub content: nat,
    pub padding: nat,
    pub padding_only: nat,
}

/// What the reader comes to.
pub enum DownStop {
    /// Content of a frame is there.
    Content,
    /// The stream is not framed, or not any more.
    Raw,
    /// The frames ended with the order to go on below the encryption, behind
    /// these bytes.
    Detach(Seq<u8>),
    /// More bytes are needed.
    More,
    /// A frame is longer than frames may be.
    TooLarge,
    /// Too many frames without content in a row.
    NoContent,
}

pub open spec fn least(a: nat, b: nat) -> nat {
    if a < b {
        a
    } else {
        b
    }
}

/// Whether the bytes so far are the beginning of the user id.
pub open spec fn agrees(buffer: Seq<u8>, uuid: Seq<u8>) -> bool {
    let n = least(buffer.len(), 16) as int;
    buffer.take(n) == uuid.take(n)
}

/// How a frame's head changes what was read: its command and its lengths.
pub open spec fn with_head(s: DownView) -> DownView {
    DownView {
        command: s.buffer[0],
        content: codec::be16(s.buffer[1], s.buffer[2]) as nat,
        padding: codec::be16(s.buffer[3], s.buffer[4]) as nat,
        ..s
    }
}

pub open spec fn counted(n: nat) -> nat {
    if n < u32::MAX {
        n + 1
    } else {
        n
    }
}

/// Reads on until there is content, or something else has to happen.
pub open spec fn settle(s: DownView, uuid: Seq<u8>) -> (DownView, DownStop)
    decreases
            (if s.mode == Mode::Undecided {
                2nat
            } else if s.mode == Mode::Framed {
                1nat
            } else {
                0nat
            }),
            s.buffer.len(),
{
    match s.mode {
        Mode::Raw => (s, DownStop::Raw),
        Mode::Undecided => if !agrees(s.buffer, uuid) {
            (DownView { mode: Mode::Raw, ..s }, DownStop::Raw)
        } else if s.buffer.len() < 21 {
            (s, DownStop::More)
        } else {
            settle(DownView { mode: Mode::Framed, buffer: s.buffer.skip(16), ..s }, uuid)
        },
        Mode::Framed => if s.content == 0 && s.padding == 0 {
            if s.command == CMD_DIRECT {
                (DownView { mode: Mode::Raw, buffer: Seq::empty(), ..s }, DownStop::Detach(s.buffer))
            } else if s.command == CMD_END {
                (DownView { mode: Mode::Raw, ..s }, DownStop::Raw)
            } else if s.buffer.len() < 5 {
                (s, DownStop::More)
            } else {
                let h = with_head(s);
                if h.content + h.padding + 5 > MAX_FRAME {
                    (h, DownStop::TooLarge)
                } else {
                    let t = DownView {
                        buffer: s.buffer.skip(5),
                        padding_only: if h.content > 0 {
                            0
                        } else {
                            counted(s.padding_only)
                        },
                        ..h
                    };
                    if h.content == 0 && t.padding_only > MAX_PADDING_ONLY {
                        (t, DownStop::NoContent)
                    } else {
                        settle(t, uuid)
                    }
                }
            }
        } else if s.buffer.len() == 0 {
            (s, DownStop::More)
        } else if s.content > 0 {
            (s, DownStop::Content)
        } else {
            let n = least(s.padding, s.buffer.len());
            settle(
                DownView {
                    buffer: s.buffer.skip(n as int),
                    padding: (s.padding - n) as nat,
                    ..s
                },
                uuid,
            )
        },
    }
}

/// What reading gives.
#[derive(Debug)]
pub enum VisionRead {
    Data(Vec<u8>),
    /// The stream, or what replaced it, is read directly.
    Through,
    /// From now on what lies below the encryption is read, behind these bytes.
    Detach(Vec<u8>),
    /// More has to be read.
    More,
    /// The stream ended.
    End,
    Fail(String),
}

/// What is told of a frame that is too long.
pub open spec fn too_large_text(content: nat, padding: nat) -> Seq<char> {
    "xtls-rprx-vision frame too large ("@ + text::dec(content) + "+"@ + text::dec(padding) + ")."@
}

// ---- writing ----
/// The padding of a frame: it hides short contents, and a frame stays within
/// its limit.
pub open spec fn padding_for(content: nat, uuid_over: nat, chance: nat) -> int {
    let p = if content < 900 {
        chance + 900 - content
    } else {
        chance as int
    };
    let room = MAX_FRAME - uuid_over - HEADER_SIZE - content;
    if p < room {
        p
    } else {
        room
    }
}

/// How large a random number is drawn for the padding of contents.
pub open spec fn chance_below(content: nat) -> nat {
    if content < 900 {
        500
    } else {
        256
    }
}

/// A frame: the user id in the first one, the head, the content and zeros.
pub open spec fn frame_bytes(
    uuid: Seq<u8>,
    command: u8,
    content: Seq<u8>,
    padding: nat,
) -> Seq<u8> {
    uuid + seq![command] + codec::be16_bytes(content.len() as int) + codec::be16_bytes(
        padding as int,
    ) + content + Seq::new(padding, |i: int| 0u8)
}

/// The id that goes before the first frame.
pub open spec fn lead(uuid: Seq<u8>, sent: bool) -> Seq<u8> {
    if sent {
        Seq::empty()
    } else {
        uuid
    }
}

/// How much data goes into one frame.
pub open spec fn max_content(sent: bool) -> int {
    if sent {
        7287
    } else {
        7271
    }
}

/// The data of the next frame.
pub open spec fn next_chunk(data: Seq<u8>, sent: bool) -> Seq<u8> {
    outgoing::at_most(data, max_content(sent))
}

/// The frames end with the one in which application data begins.
pub open spec fn chunk_command(chunk: Seq<u8>) -> u8 {
    if chunk.len() > 0 && chunk[0] == TLS_APP {
        CMD_END
    } else {
        CMD_CONTINUE
    }
}

/// The frame that carries the beginning of data.
pub open spec fn uplink_frame(uuid: Seq<u8>, sent: bool, data: Seq<u8>, chance: nat) -> Seq<u8> {
    let chunk = next_chunk(data, sent);
    frame_bytes(
        lead(uuid, sent),
        chunk_command(chunk),
        chunk,
        padding_for(chunk.len(), lead(uuid, sent).len(), chance) as nat,
    )
}

/// A connection with padded frames.
#[derive(Debug)]
pub struct VisionStream {
    pub uuid: [u8; 16],
    pub buffer: Vec<u8>,
    pub mode: Mode,
    pub command: u8,
    pub remaining_content: usize,
    pub remaining_padding: usize,
    pub padding_only: u32,
    pub uuid_sent: bool,
    pub uplink_raw: bool,
    pub pending_end: bool,
    pub out: Outgoing,
}

impl View for VisionStream {
    type V = DownView;

    /// What was read.
    open spec fn view(&self) -> DownView {
        DownView {
            mode: self.mode,
            buffer: self.buffer@,
            command: self.command,
            content: self.remaining_content as nat,
            padding: self.remaining_padding as nat,
            padding_only: self.padding_only as nat,
        }
    }
}

fn padding_len(content: usize, uuid_over: usize, chance: usize) -> (r: usize)
    requires
        content + uuid_over + HEADER_SIZE <= MAX_FRAME,
        chance < chance_below(content as nat),
    ensures
        r == padding_for(content as nat, uuid_over as nat, chance as nat),
        content + uuid_over + HEADER_SIZE + r <= MAX_FRAME,
{
    let p: usize = if content < 900 {
        chance + 900 - content
    } else {
        chance
    };
    let room: usize = MAX_FRAME - uuid_over - HEADER_SIZE - content;
    if p < room {
        p
    } else {
        room
    }
}

impl VisionStream {
    pub open spec fn wf(self) -> bool {
        self.out.wf()
    }

    /// Nothing of what is written changes.
    pub open spec fn same_uplink(self, o: VisionStream) -> bool {
        self.uuid == o.uuid && self.uuid_sent == o.uuid_sent && self.uplink_raw == o.uplink_raw
            && self.pending_end == o.pending_end && self.out == o.out
    }

    /// Whether nothing was read or written yet.
    pub open spec fn is_new(self, uuid: Seq<u8>) -> bool {
        &&& self.wf()
        &&& self.uuid@ == uuid
        &&& self@ == (DownView {
            mode: Mode::Undecided,
            buffer: Seq::empty(),
            command: CMD_CONTINUE,
            content: 0,
            padding: 0,
            padding_only: 0,
        })
        &&& !self.uuid_sent && !self.uplink_raw && !self.pending_end
        &&& self.out.frame@.len() == 0
    }

    pub fn new(uuid: [u8; 16]) -> (r: Self)
        ensures
            r.is_new(uuid@),
    {
        let r = VisionStream {
            uuid,
            buffer: Vec::new(),
            mode: Mode::Undecided,
            command: CMD_CONTINUE,
            remaining_content: 0,
            remaining_padding: 0,
            padding_only: 0,
            uuid_sent: false,
            uplink_raw: false,
            pending_end: false,
            out: Outgoing::new(),
        };
        assert(r@.buffer =~= Seq::empty());
        r
    }

    /// Whether the bytes so far are the beginning of the user id.
    fn agrees(&self) -> (r: bool)
        ensures
            r == agrees(self.buffer@, self.uuid@),
    {
        let n: usize = if self.buffer.len() < 16 {
            self.buffer.len()
        } else {
            16
        };
        let a = &self.buffer.as_slice()[0..n];
        let b = &self.uuid.as_slice()[0..n];
        assert(a@ =~= self.buffer@.take(n as int));
        assert(b@ =~= self.uuid@.take(n as int));
        codec::same_bytes(a, b)
    }

    /// Reads the head of a frame.
    fn read_frame_header(&mut self)
        requires
            old(self).buffer@.len() >= 5,
        ensures
            final(self)@ == with_head(old(self)@),
            final(self).same_uplink(*old(self)),
    {
        self.command = self.buffer[0];
        self.remaining_content = codec::read_be16(self.buffer[1], self.buffer[2]) as usize;
        self.remaining_padding = codec::read_be16(self.buffer[3], self.buffer[4]) as usize;
    }

    /// Reads on until there is content, or something else has to happen; bytes
    /// behind the order to detach are returned.
    fn settle(&mut self) -> (r: VisionRead)
        ensures
            final(self).same_uplink(*old(self)),
            final(self)@ == settle(old(self)@, old(self).uuid@).0,
            match settle(old(self)@, old(self).uuid@).1 {
                DownStop::Content => r is Data && final(self).buffer@.len() > 0,
                DownStop::Raw => r is Through,
                DownStop::Detach(b) => r is Detach && r->Detach_0@ == b,
                DownStop::More => r is More,
                DownStop::TooLarge => r is Fail && r->Fail_0@ == too_large_text(
                    final(self).remaining_content as nat,
                    final(self).remaining_padding as nat,
                ),
                DownStop::NoContent => r is Fail && r->Fail_0@
                    == "The VLESS server sent 64 consecutive xtls-rprx-vision frames with no content."@,
            },
    {
        let ghost start = self@;
        let ghost id = self.uuid@;
        loop
            invariant
                self.same_uplink(*old(self)),
                id == self.uuid@,
                start == old(self)@,
                settle(start, id) == settle(self@, id),
            decreases
                    (if self.mode == Mode::Undecided {
                        2nat
                    } else if self.mode == Mode::Framed {
                        1nat
                    } else {
                        0nat
                    }),
                    self.buffer@.len(),
        {
            match self.mode {
                Mode::Raw => {
                    return VisionRead::Through;
                },
                Mode::Undecided => {
                    if !self.agrees() {
                        self.mode = Mode::Raw;
                        return VisionRead::Through;
                    }
                    if self.buffer.len() < 21 {
                        return VisionRead::More;
                    }
                    let _id = codec::take_front(&mut self.buffer, 16);
                    self.mode = Mode::Framed;
                },
                Mode::Framed => {
                    if self.remaining_content == 0 && self.remaining_padding == 0 {
                        if self.command == CMD_DIRECT {
                            let extra = codec::copy(self.buffer.as_slice());
                            self.buffer = Vec::new();
                            self.mode = Mode::Raw;
                            assert(self@.buffer =~= Seq::empty());
                            return VisionRead::Detach(extra);
                        }
                        if self.command == CMD_END {
                            self.mode = Mode::Raw;
                            return VisionRead::Through;
                        }
                        if self.buffer.len() < HEADER_SIZE {
                            return VisionRead::More;
                        }
                        self.read_frame_header();
                        if self.remaining_content + self.remaining_padding + HEADER_SIZE
                            > MAX_FRAME {
                            return VisionRead::Fail(
                                too_large(self.remaining_content, self.remaining_padding),
                            );
                        }
                        let _head = codec::take_front(&mut self.buffer, HEADER_SIZE);
                        if self.remaining_content > 0 {
                            self.padding_only = 0;
                        } else {
                            if self.padding_only < u32::MAX {
                                self.padding_only = self.padding_only + 1;
                            }
                            if self.padding_only > MAX_PADDING_ONLY {
                                return VisionRead::Fail(
                                    "The VLESS server sent 64 consecutive xtls-rprx-vision frames with no content.".to_owned(),
                                );
                            }
                        }
                    } else if self.buffer.len() == 0 {
                        return VisionRead::More;
                    } else if self.remaining_content > 0 {
                        return VisionRead::Data(Vec::new());
                    } else {
                        let n: usize = if self.remaining_padding < self.buffer.len() {
                            self.remaining_padding
                        } else {
                            self.buffer.len()
                        };
                        let _skip = codec::take_front(&mut self.buffer, n);
                        self.remaining_padding = self.remaining_padding - n;
                    }
                },
            }
        }
    }

    /// Reads at most `max` bytes of data.
    pub fn read(&mut self, max: usize) -> (r: VisionRead)
        ensures
            final(self).same_uplink(*old(self)),
            ({
                let (s, stop) = settle(old(self)@, old(self).uuid@);
                match stop {
                    DownStop::Content => {
                        let n = least(least(s.content, s.buffer.len()), max as nat);
                        r is Data && r->Data_0@ == s.buffer.take(n as int) && final(self)@ == (
                        DownView {
                            buffer: s.buffer.skip(n as int),
                            content: (s.content - n) as nat,
                            ..s
                        })
                    },
                    DownStop::Raw => if s.buffer.len() > 0 {
                        r is Data && r->Data_0@ == outgoing::at_most(s.buffer, max as int)
                            && final(self)@ == (DownView {
                            buffer: s.buffer.skip(r->Data_0@.len() as int),
                            ..s
                        })
                    } else {
                        r is Through && final(self)@ == s
                    },
                    DownStop::Detach(b) => r is Detach && r->Detach_0@ == b && final(self)@ == s,
                    DownStop::More => r is More && final(self)@ == s,
                    DownStop::TooLarge => r is Fail && r->Fail_0@ == too_large_text(
                        s.content,
                        s.padding,
                    ) && final(self)@ == s,
                    DownStop::NoContent => r is Fail && r->Fail_0@
                        == "The VLESS server sent 64 consecutive xtls-rprx-vision frames with no content."@
                        && final(self)@ == s,
                }
            }),
    {
        let r = self.settle();
        match r {
            VisionRead::Data(_) => {
                let m: usize = if self.remaining_content < self.buffer.len() {
                    self.remaining_content
                } else {
                    self.buffer.len()
                };
                let n: usize = if m < max {
                    m
                } else {
                    max
                };
                let b = codec::take_front(&mut self.buffer, n);
                self.remaining_content = self.remaining_content - n;
                VisionRead::Data(b)
            },
            VisionRead::Through => {
                if self.buffer.len() > 0 {
                    let b = outgoing::take_some(&mut self.buffer, max);
                    VisionRead::Data(b)
                } else {
                    VisionRead::Through
                }
            },
            other => other,
        }
    }

    /// Takes bytes of the stream below.
    pub fn feed(&mut self, b: &[u8])
        ensures
            final(self).same_uplink(*old(self)),
            final(self)@ == (DownView { buffer: old(self).buffer@ + b@, ..old(self)@ }),
    {
        codec::append(&mut self.buffer, b);
    }

    /// The stream below ended where more had to be read: within a frame that is
    /// an error, before the frames it is not.
    pub fn closed(&mut self) -> (r: VisionRead)
        ensures
            final(self).same_uplink(*old(self)),
            match old(self).mode {
                Mode::Framed => final(self)@ == old(self)@ && if old(self).remaining_content == 0
                    && old(self).remaining_padding == 0 {
                    if old(self).buffer@.len() == 0 {
                        r is End
                    } else {
                        r is Fail && r->Fail_0@
                            == "The VLESS server closed the connection inside an xtls-rprx-vision frame header, mid-response."@
                    }
                } else {
                    r is Fail && r->Fail_0@
                        == "The VLESS server closed the connection inside an xtls-rprx-vision frame, mid-response."@
                },
                _ => r is Through && final(self)@ == (DownView { mode: Mode::Raw, ..old(self)@ }),
            },
    {
        match self.mode {
            Mode::Framed => {
                if self.remaining_content == 0 && self.remaining_padding == 0 {
                    if self.buffer.len() == 0 {
                        VisionRead::End
                    } else {
                        VisionRead::Fail(
                            "The VLESS server closed the connection inside an xtls-rprx-vision frame header, mid-response.".to_owned(),
                        )
                    }
                } else {
                    VisionRead::Fail(
                        "The VLESS server closed the connection inside an xtls-rprx-vision frame, mid-response.".to_owned(),
                    )
                }
            },
            _ => {
                self.mode = Mode::Raw;
                VisionRead::Through
            },
        }
    }

    /// Pads contents into a frame; none where they are too long for one.
    pub fn pad_frame(&self, content: &[u8], command: u8, chance: usize) -> (r: Option<Vec<u8>>)
        requires
            chance < chance_below(content@.len()),
        ensures
            ({
                let id = lead(self.uuid@, self.uuid_sent);
                if content@.len() + id.len() + HEADER_SIZE > MAX_FRAME {
                    r is None
                } else {
                    r is Some && r->0@ == frame_bytes(
                        id,
                        command,
                        content@,
                        padding_for(content@.len(), id.len(), chance as nat) as nat,
                    )
                }
            }),
    {
        let n: usize = content.len();
        let over: usize = if self.uuid_sent {
            0
        } else {
            16
        };
        if n > MAX_FRAME - HEADER_SIZE - over {
            return None;
        }
        let padding: usize = padding_len(n, over, chance);
        let mut f: Vec<u8> = Vec::new();
        if !self.uuid_sent {
            codec::append(&mut f, self.uuid.as_slice());
        }
        assert(f@ =~= lead(self.uuid@, self.uuid_sent));
        let ghost id = f@;
        f.push(command);
        assert(f@ =~= id + seq![command]);
        codec::push_be16(&mut f, n as u16);
        codec::push_be16(&mut f, padding as u16);
        codec::append(&mut f, content);
        codec::append_zeros(&mut f, padding);
        Some(f)
    }

    /// Begins the frame that carries the beginning of data, with the given
    /// random number for its padding.
    pub fn stage_with(&mut self, data: &[u8], chance: usize)
        requires
            chance < chance_below(next_chunk(data@, old(self).uuid_sent).len()),
        ensures
            final(self).wf(),
            final(self)@ == old(self)@,
            final(self).uuid == old(self).uuid,
            final(self).uuid_sent == old(self).uuid_sent,
            final(self).uplink_raw == old(self).uplink_raw,
            ({
                let chunk = next_chunk(data@, old(self).uuid_sent);
                &&& final(self).out.left() == uplink_frame(
                    old(self).uuid@,
                    old(self).uuid_sent,
                    data@,
                    chance as nat,
                )
                &&& final(self).out.carries == chunk.len()
                &&& final(self).out.frame@.len() > 0
                &&& final(self).pending_end == (chunk_command(chunk) == CMD_END)
            }),
    {
        let max: usize = if self.uuid_sent {
            7287
        } else {
            7271
        };
        let n: usize = if data.len() < max {
            data.len()
        } else {
            max
        };
        let chunk = &data[0..n];
        assert(chunk@ =~= next_chunk(data@, self.uuid_sent));
        let command: u8 = if n > 0 && chunk[0] == TLS_APP {
            CMD_END
        } else {
            CMD_CONTINUE
        };
        match self.pad_frame(chunk, command, chance) {
            Some(f) => {
                self.out.begin(f, n);
                self.pending_end = command == CMD_END;
            },
            None => {},
        }
    }

    /// Begins to write data: in a frame, unless one is being written or the
    /// frames have ended; says whether the data goes to the stream below as it
    /// is.
    pub fn begin_write(&mut self, data: &[u8]) -> (raw: bool)
        requires
            old(self).wf(),
        ensures
            final(self).wf(),
            final(self)@ == old(self)@,
            final(self).uuid == old(self).uuid,
            final(self).uuid_sent == old(self).uuid_sent,
            final(self).uplink_raw == old(self).uplink_raw,
            raw == (old(self).out.frame@.len() == 0 && old(self).uplink_raw),
            if old(self).out.frame@.len() > 0 || old(self).uplink_raw || data@.len() == 0 {
                *final(self) == *old(self)
            } else {
                let chunk = next_chunk(data@, old(self).uuid_sent);
                &&& exists|chance: nat|
                    chance < chance_below(chunk.len()) && final(self).out.left()
                        == #[trigger] uplink_frame(
                        old(self).uuid@,
                        old(self).uuid_sent,
                        data@,
                        chance,
                    )
                &&& final(self).out.carries == chunk.len()
                &&& final(self).pending_end == (chunk_command(chunk) == CMD_END)
            },
    {
        if !self.out.is_idle() {
            return false;
        }
        if self.uplink_raw {
            return true;
        }
        if data.len() == 0 {
            return false;
        }
        let max: usize = if self.uuid_sent {
            7287
        } else {
            7271
        };
        let n: usize = if data.len() < max {
            data.len()
        } else {
            max
        };
        let below: usize = if n < 900 {
            500
        } else {
            256
        };
        let chance: usize = random::random_below(below);
        assert(next_chunk(data@, self.uuid_sent).len() == n);
        self.stage_with(data, chance);
        false
    }

    /// The frame is written: how much data it carried. The user id has gone, and
    /// behind the last frame data goes as it is.
    pub fn finish_uplink_frame(&mut self) -> (r: usize)
        ensures
            final(self).wf(),
            final(self)@ == old(self)@,
            final(self).uuid == old(self).uuid,
            r == old(self).out.carries,
            final(self).uuid_sent,
            final(self).uplink_raw == (old(self).uplink_raw || old(self).pending_end),
            !final(self).pending_end,
            final(self).out.frame@.len() == 0,
    {
        let n: usize = self.out.finish();
        self.uuid_sent = true;
        if self.pending_end {
            self.uplink_raw = true;
        }
        self.pending_end = false;
        n
    }
}

fn too_large(content: usize, padding: usize) -> (r: String)
    ensures
        r@ == too_large_text(content as nat, padding as nat),
{
    let mut m = text::chars_of("xtls-rprx-vision frame too large (");
    let a = text::format_dec(content as u64);
    text::append(&mut m, a.as_slice());
    text::append_str(&mut m, "+");
    let b = text::format_dec(padding as u64);
    text::append(&mut m, b.as_slice());
    text::append_str(&mut m, ").");
    text::string_of(m.as_slice())
}

// ---- laws ----
/// A reader between two frames.
pub open spec fn between_frames(s: DownView) -> bool {
    s.mode == Mode::Framed && s.content == 0 && s.padding == 0 && s.command == CMD_CONTINUE
}

/// A frame with content is read as it was padded: its content is there, and
/// behind the content and the padding the reader goes on with what follows.
pub proof fn law_frame_reads_back(
    s: DownView,
    uuid: Seq<u8>,
    command: u8,
    content: Seq<u8>,
    padding: nat,
    rest: Seq<u8>,
)
    requires
        between_frames(s),
        s.buffer == frame_bytes(Seq::empty(), command, content, padding) + rest,
        content.len() > 0,
        content.len() + padding + 5 <= MAX_FRAME,
    ensures
        ({
            let (t, stop) = settle(s, uuid);
            &&& stop is Content
            &&& t.content == content.len()
            &&& t.buffer.take(content.len() as int) == content
            &&& ({
                let after = DownView {
                    buffer: t.buffer.skip(content.len() as int),
                    content: 0,
                    ..t
                };
                let next = DownView {
                    buffer: rest,
                    padding: 0,
                    content: 0,
                    ..t
                };
                settle(after, uuid) == settle(next, uuid)
            })
        }),
{
    let f = frame_bytes(Seq::empty(), command, content, padding);
    let b = s.buffer;
    codec::law_be16_reads_back(content.len() as int);
    codec::law_be16_reads_back(padding as int);
    let c = codec::be16_bytes(content.len() as int);
    let p = codec::be16_bytes(padding as int);
    assert(b[0] == command && b[1] == c[0] && b[2] == c[1] && b[3] == p[0] && b[4] == p[1]);
    let t = settle(s, uuid).0;
    reveal_with_fuel(settle, 3);
    assert(b.skip(5) =~= content + Seq::new(padding, |i: int| 0u8) + rest);
    assert(t.buffer.take(content.len() as int) =~= content);
    let after = DownView { buffer: t.buffer.skip(content.len() as int), content: 0, ..t };
    assert(after.buffer =~= Seq::new(padding, |i: int| 0u8) + rest);
    if padding > 0 {
        assert(least(padding, after.buffer.len()) == padding);
        assert(after.buffer.skip(padding as int) =~= rest);
    } else {
        assert(after.buffer =~= rest);
    }
}

/// The first frame of an uplink begins with the user id, and only that one.
pub proof fn law_uuid_leads_once(uuid: Seq<u8>, data: Seq<u8>, chance: nat)
    requires
        uuid.len() == 16,
        data.len() > 0,
        chance < chance_below(next_chunk(data, false).len()),
    ensures
        uplink_frame(uuid, false, data, chance).take(16) == uuid,
        uplink_frame(uuid, false, data, chance)[16] == chunk_command(next_chunk(data, false)),
        uplink_frame(uuid, true, data, chance)[0] == chunk_command(next_chunk(data, true)),
{
    let chunk = next_chunk(data, false);
    assert(uplink_frame(uuid, false, data, chance).take(16) =~= uuid);
}

/// No frame is longer than frames may be, and none leaves a short content bare.
pub proof fn law_frame_sizes(uuid: Seq<u8>, sent: bool, data: Seq<u8>, chance: nat)
    requires
        uuid.len() == 16,
        chance < chance_below(next_chunk(data, sent).len()),
    ensures
        uplink_frame(uuid, sent, data, chance).len() <= MAX_FRAME,
        next_chunk(data, sent).len() < 900 ==> uplink_frame(uuid, sent, data, chance).len() >= 905,
{
}

/// The layout of a frame: the id, where there is one, the command, the length of the
/// content and that of the padding, each in two bytes with the high one first, the
/// content, and as many zeros.
pub proof fn law_frame_layout(uuid: Seq<u8>, command: u8, content: Seq<u8>, padding: nat)
    requires
        content.len() < 0x1_0000,
        padding < 0x1_0000,
    ensures
        ({
            let f = frame_bytes(uuid, command, content, padding);
            let k = uuid.len() as int;
            let n = content.len() as int;
            &&& f.len() == k + 5 + n + padding
            &&& f.take(k) == uuid
            &&& f[k] == command
            &&& f[k + 1] * 256 + f[k + 2] == n
            &&& f[k + 3] * 256 + f[k + 4] == padding
            &&& f.subrange(k + 5, k + 5 + n) == content
            &&& forall|i: int| k + 5 + n <= i < f.len() ==> #[trigger] f[i] == 0
        }),
{
    let f = frame_bytes(uuid, command, content, padding);
    let k = uuid.len() as int;
    let n = content.len() as int;
    codec::law_high_byte_first(n);
    codec::law_high_byte_first(padding as int);
    let a = codec::be16_bytes(n);
    let b = codec::be16_bytes(padding as int);
    assert(f[k + 1] == a[0] && f[k + 2] == a[1]);
    assert(f[k + 3] == b[0] && f[k + 4] == b[1]);
    assert(f.take(k) =~= uuid);
    assert(f.subrange(k + 5, k + 5 + n) =~= content);
}

/// A frame whose content begins a TLS record with data, type 23, says with command 1 that
/// it is the last one; any other says with command 0 that more follow.
pub proof fn law_last_frame_is_marked(uuid: Seq<u8>, data: Seq<u8>, chance: nat)
    requires
        uuid.len() == 16,
        data.len() > 0,
    ensures
        uplink_frame(uuid, false, data, chance)[16] == (if data[0] == 23 {
            1
        } else {
            0int
        }),
        uplink_frame(uuid, true, data, chance)[0] == (if data[0] == 23 {
            1
        } else {
            0int
        }),
{
    assert(next_chunk(data, false)[0] == data[0]);
    assert(next_chunk(data, true)[0] == data[0]);
    let f = uplink_frame(uuid, false, data, chance);
    assert(f[16] == chunk_command(next_chunk(data, false)));
}

/// A reader that has not seen the user id reads frames only where the bytes begin with it;
/// else all bytes are data as they are.
pub proof fn law_id_opens_frames(s: DownView, uuid: Seq<u8>)
    requires
        uuid.len() == 16,
        s.mode == Mode::Undecided,
        s.buffer.len() >= 16,
    ensures
        s.buffer.take(16) != uuid ==> settle(s, uuid) == (
            DownView { mode: Mode::Raw, ..s },
            DownStop::Raw,
        ),
        s.buffer.take(16) == uuid && s.buffer.len() >= 21 ==> settle(s, uuid) == settle(
            DownView { mode: Mode::Framed, buffer: s.buffer.skip(16), ..s },
            uuid,
        ),
        s.buffer.take(16) == uuid && s.buffer.len() < 21 ==> settle(s, uuid) == (s, DownStop::More),
{
    assert(uuid.take(16) =~= uuid);
}

/// Behind the last frame, command 1, the stream goes on without frames; behind command 2
/// what was read goes to the stream below the encryption.
pub proof fn law_frames_end(s: DownView, uuid: Seq<u8>)
    requires
        s.mode == Mode::Framed,
        s.content == 0,
        s.padding == 0,
    ensures
        s.command == 1 ==> settle(s, uuid) == (DownView { mode: Mode::Raw, ..s }, DownStop::Raw),
        s.command == 2 ==> settle(s, uuid) == (
            DownView { mode: Mode::Raw, buffer: Seq::empty(), ..s },
            DownStop::Detach(s.buffer),
        ),
{
}

/// How much data goes into one frame: what leaves room for the head and for 900 bytes of
/// padding in 8192 bytes, and sixteen less where the user id goes before it.
pub proof fn law_room_of_frame()
    ensures
        max_content(true) == 8192 - 5 - 900,
        max_content(false) == 8192 - 5 - 900 - 16,
{
}

/// Short contents are padded to hide their length: to at least 900 bytes where there is
/// room; and no frame is longer than 8192 bytes.
pub proof fn law_padding(content: nat, over: nat, chance: nat)
    requires
        content + over + 5 <= 8192,
        content < 900 ==> content + over + 5 + 900 + 500 <= 8192,
        chance < chance_below(content),
    ensures
        content < 900 ==> 900 <= content + padding_for(content, over, chance) < 1400,
        content >= 900 ==> 0 <= padding_for(content, over, chance) < 256,
        over + 5 + content + padding_for(content, over, chance) <= 8192,
{
}

/// A frame that would be longer than 8192 bytes is refused, and the content of one that
/// is not is given on once it is there.
pub proof fn law_frame_lengths(s: DownView, uuid: Seq<u8>)
    requires
        s.mode == Mode::Framed,
        s.content == 0,
        s.padding == 0,
        s.command == 0,
        s.buffer.len() >= 5,
    ensures
        ({
            let c = s.buffer[1] * 256 + s.buffer[2];
            let p = s.buffer[3] * 256 + s.buffer[4];
            &&& (c + p + 5 > 8192 ==> settle(s, uuid).1 is TooLarge)
            &&& (c + p + 5 <= 8192 && c > 0 && s.buffer.len() > 5 ==> settle(s, uuid).1 is Content
                && settle(s, uuid).0.content == c && settle(s, uuid).0.padding == p && settle(
                s,
                uuid,
            ).0.buffer == s.buffer.skip(5) && settle(s, uuid).0.command == s.buffer[0])
            &&& (c + p + 5 <= 8192 && c > 0 && s.buffer.len() == 5 ==> settle(s, uuid).1 is More)
        }),
{
    reveal_with_fuel(settle, 3);
}

} // verus!
