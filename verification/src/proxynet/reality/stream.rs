//! The data behind a handshake.

use vstd::prelude::*;

use crate::proxynet::outgoing;
use crate::proxynet::reality::record;
use crate::proxynet::reality::record::{ContentType, RecStep, RecView, TlsRecordStream};
use crate::text;

verus! {

pub const HANDSHAKE_NEW_SESSION_TICKET: u8 = 4;

pub const HANDSHAKE_KEY_UPDATE: u8 = 24;

/// How many records without data may follow each other.
pub const MAX_EMPTY: u32 = 64;

/// What was read: records, data that was not taken yet, whether the peer closed
/// its side, and how many records without data came in a row.
#[verifier::ext_equal]
pub struct TlsView {
    pub records: RecView,
    pub pending: Seq<u8>,
    pub closed: bool,
    pub empty: nat,
}

pub enum Fill {
    Data,
    More,
    End,
    Fail(Seq<char>),
}

/// What is told of a message that is neither a ticket nor a key update.
pub open spec fn unexpected_text(t: u8) -> Seq<char> {
    "Unexpected post-handshake message "@ + text::dec(t as nat) + "."@
}

/// Reads records until there is data. Tickets and changes of the cipher carry
/// none and are not the end.
pub open spec fn filled(v: TlsView) -> (TlsView, Fill)
    decreases v.records.inbound.len(),
    via filled_decreases
{
    let (w, step) = record::record_step(v.records);
    let n = TlsView { records: w, ..v };
    match step {
        RecStep::More => (n, Fill::More),
        RecStep::Fail(_, m) => (n, Fill::Fail(m)),
        RecStep::Record(t, p) => if t == ContentType::ApplicationData && p.len() > 0 {
            (TlsView { pending: p, empty: 0, ..n }, Fill::Data)
        } else if t == ContentType::Alert {
            if p.len() >= 2 && p[1] == 0 {
                (TlsView { closed: true, ..n }, Fill::End)
            } else {
                (n, Fill::Fail("The server sent a TLS alert."@))
            }
        } else if t == ContentType::Handshake && p.len() > 0 && p[0] == HANDSHAKE_KEY_UPDATE {
            (
                n,
                Fill::Fail(
                    "The server asked for a key update, which this client does not implement yet."@,
                ),
            )
        } else if t == ContentType::Handshake && p.len() > 0 && p[0]
            != HANDSHAKE_NEW_SESSION_TICKET {
            (n, Fill::Fail(unexpected_text(p[0])))
        } else {
            let e = TlsView {
                empty: if v.empty < u32::MAX {
                    v.empty + 1
                } else {
                    v.empty
                },
                ..n
            };
            if e.empty > MAX_EMPTY {
                (
                    e,
                    Fill::Fail(
                        "The server sent 64 consecutive TLS records carrying no application data."@,
                    ),
                )
            } else {
                filled(e)
            }
        },
    }
}

#[via_fn]
proof fn filled_decreases(v: TlsView) {
    record::lemma_record_taken(v.records);
}

/// What a read gives.
#[derive(Debug)]
pub enum TlsRead {
    Data(Vec<u8>),
    More,
    End,
    Fail(String),
}

/// The stream of data behind a handshake.
#[derive(Debug)]
pub struct RealityTlsStream {
    pub records: TlsRecordStream,
    pub pending: Vec<u8>,
    pub received_close: bool,
    pub empty_records: u32,
}

impl View for RealityTlsStream {
    type V = TlsView;

    open spec fn view(&self) -> TlsView {
        TlsView {
            records: self.records@,
            pending: self.pending@,
            closed: self.received_close,
            empty: self.empty_records as nat,
        }
    }
}

impl RealityTlsStream {
    pub open spec fn wf(self) -> bool {
        self.records.wf()
    }

    /// A stream over records; data that came early is read first.
    pub fn new(records: TlsRecordStream, leftover: Vec<u8>) -> (r: Self)
        requires
            records.wf(),
        ensures
            r.wf(),
            r.records == records,
            r@ == (TlsView { records: records@, pending: leftover@, closed: false, empty: 0 }),
    {
        RealityTlsStream { records, pending: leftover, received_close: false, empty_records: 0 }
    }

    /// Takes the data that was not read yet.
    pub fn steal_pending(&mut self) -> (r: Vec<u8>)
        ensures
            r@ == old(self).pending@,
            final(self)@ == (TlsView { pending: Seq::empty(), ..old(self)@ }),
            final(self).records == old(self).records,
    {
        let r = crate::codec::copy(self.pending.as_slice());
        self.pending = Vec::new();
        assert(self@.pending =~= Seq::empty());
        r
    }

    /// Takes what is no whole record yet.
    pub fn steal_inbound_leftover(&mut self) -> (r: Vec<u8>)
        requires
            old(self).wf(),
        ensures
            final(self).wf(),
            r@ == old(self).records.inbound@,
            final(self)@ == (TlsView {
                records: RecView { inbound: Seq::empty(), ..old(self).records@ },
                ..old(self)@
            }),
            final(self).records.same_uplink(old(self).records),
    {
        self.records.steal_inbound_leftover()
    }

    /// Reads at most `max` bytes of data.
    pub fn read(&mut self, max: usize) -> (r: TlsRead)
        requires
            old(self).wf(),
        ensures
            final(self).wf(),
            final(self).records.same_uplink(old(self).records),
            if max == 0 {
                r is Data && r->Data_0@.len() == 0 && final(self)@ == old(self)@
            } else if old(self).pending@.len() > 0 {
                r is Data && r->Data_0@ == outgoing::at_most(old(self).pending@, max as int)
                    && final(self)@ == (TlsView {
                    pending: old(self).pending@.skip(r->Data_0@.len() as int),
                    ..old(self)@
                })
            } else if old(self).received_close {
                r is End && final(self)@ == old(self)@
            } else {
                let (v, f) = filled(old(self)@);
                match f {
                    Fill::Data => r is Data && r->Data_0@ == outgoing::at_most(
                        v.pending,
                        max as int,
                    ) && final(self)@ == (TlsView {
                        pending: v.pending.skip(r->Data_0@.len() as int),
                        ..v
                    }),
                    Fill::More => r is More && final(self)@ == v,
                    Fill::End => r is End && final(self)@ == v,
                    Fill::Fail(m) => r is Fail && r->Fail_0@ == m && final(self)@ == v,
                }
            },
    {
        if max == 0 {
            return TlsRead::Data(Vec::new());
        }
        if self.pending.len() > 0 {
            let b = outgoing::take_some(&mut self.pending, max);
            return TlsRead::Data(b);
        }
        if self.received_close {
            return TlsRead::End;
        }
        let ghost want = filled(self@);
        loop
            invariant
                self.wf(),
                self.records.same_uplink(old(self).records),
                max > 0,
                old(self).pending@.len() == 0,
                !old(self).received_close,
                want == filled(old(self)@),
                want == filled(self@),
            decreases self.records@.inbound.len(),
        {
            proof {
                record::lemma_record_taken(self.records@);
            }
            let rec = match self.records.try_read_buffered() {
                Err(e) => {
                    return TlsRead::Fail(e.message);
                },
                Ok(None) => {
                    return TlsRead::More;
                },
                Ok(Some(rec)) => rec,
            };
            let n: usize = rec.payload.len();
            match rec.ty {
                ContentType::ApplicationData => {
                    if n > 0 {
                        self.empty_records = 0;
                        self.pending = rec.payload;
                        let b = outgoing::take_some(&mut self.pending, max);
                        return TlsRead::Data(b);
                    }
                },
                ContentType::ChangeCipherSpec => {},
                ContentType::Handshake => {
                    if n > 0 && rec.payload[0] == HANDSHAKE_KEY_UPDATE {
                        return TlsRead::Fail(
                            "The server asked for a key update, which this client does not implement yet.".to_owned(),
                        );
                    }
                    if n > 0 && rec.payload[0] != HANDSHAKE_NEW_SESSION_TICKET {
                        let mut m = text::chars_of("Unexpected post-handshake message ");
                        let d = text::format_dec(rec.payload[0] as u64);
                        text::append(&mut m, d.as_slice());
                        text::append_str(&mut m, ".");
                        return TlsRead::Fail(text::string_of(m.as_slice()));
                    }
                },
                ContentType::Alert => {
                    if n >= 2 && rec.payload[1] == 0 {
                        self.received_close = true;
                        return TlsRead::End;
                    }
                    return TlsRead::Fail("The server sent a TLS alert.".to_owned());
                },
            }
            if self.empty_records < u32::MAX {
                self.empty_records = self.empty_records + 1;
            }
            if self.empty_records > MAX_EMPTY {
                return TlsRead::Fail(
                    "The server sent 64 consecutive TLS records carrying no application data.".to_owned(),
                );
            }
        }
    }

    /// Takes bytes of the stream below.
    pub fn feed(&mut self, data: &[u8])
        requires
            old(self).wf(),
        ensures
            final(self).wf(),
            final(self)@ == (TlsView {
                records: RecView {
                    inbound: old(self).records.inbound@ + data@,
                    ..old(self).records@
                },
                ..old(self)@
            }),
            final(self).records.same_uplink(old(self).records),
    {
        self.records.push_inbound(data);
    }

    /// The stream below ended.
    pub fn closed(&mut self)
        ensures
            final(self)@ == (TlsView { closed: true, ..old(self)@ }),
            final(self).records == old(self).records,
    {
        self.received_close = true;
    }

    /// Begins to write data: a record of its beginning. One that is being written
    /// goes first.
    pub fn begin_write(&mut self, data: &[u8])
        requires
            old(self).wf(),
        ensures
            final(self).wf(),
            final(self)@ == old(self)@,
            if old(self).records.out.frame@.len() > 0 || data@.len() == 0 {
                *final(self) == *old(self)
            } else {
                let chunk = outgoing::at_most(data@, record::MAX_PLAINTEXT as int);
                let keys = record::prot_view(old(self).records.write);
                &&& final(self).records.out.left() == record::record_bytes(
                    keys,
                    ContentType::ApplicationData,
                    chunk,
                )
                &&& final(self).records.out.carries == chunk.len()
                &&& record::prot_view(final(self).records.write) == record::written(keys)
                &&& record::record_step(
                    RecView { inbound: final(self).records.out.left(), read: keys },
                ).1 == RecStep::Record(ContentType::ApplicationData, chunk)
            },
    {
        self.records.begin_write(data);
    }
}

// ---- laws ----
/// A ticket, a change of the cipher or an empty record is no end of the data: what
/// comes behind it is read as if it were not there, but for the count.
pub proof fn law_empty_record_is_skipped(v: TlsView)
    requires
        v.empty < MAX_EMPTY,
        record::record_step(v.records).1 is Record,
        ({
            let (t, p) = (
                record::record_step(v.records).1->Record_0,
                record::record_step(v.records).1->Record_1,
            );
            ||| t == ContentType::ChangeCipherSpec
            ||| t == ContentType::ApplicationData && p.len() == 0
            ||| t == ContentType::Handshake && (p.len() == 0 || p[0]
                == HANDSHAKE_NEW_SESSION_TICKET)
        }),
    ensures
        filled(v) == filled(
            TlsView { records: record::record_step(v.records).0, empty: v.empty + 1, ..v },
        ),
{
    record::lemma_record_taken(v.records);
}

/// What a record means: data is given on; an alert that says that the stream closes ends
/// it, and any other is a fault; a key update is one, and so is a message of the handshake
/// that is no ticket.
pub proof fn law_records_mean(v: TlsView, p: Seq<u8>)
    requires
        p.len() >= 2,
    ensures
        record::record_step(v.records).1 == RecStep::Record(ContentType::ApplicationData, p)
            ==> filled(v).1 is Data && filled(v).0.pending == p && filled(v).0.empty == 0,
        record::record_step(v.records).1 == RecStep::Record(ContentType::Alert, p) && p[1] == 0
            ==> filled(v).1 is End && filled(v).0.closed,
        record::record_step(v.records).1 == RecStep::Record(ContentType::Alert, p) && p[1] != 0
            ==> filled(v).1 == Fill::Fail("The server sent a TLS alert."@),
        record::record_step(v.records).1 == RecStep::Record(ContentType::Handshake, p) && p[0] != 4
            ==> filled(v).1 is Fail,
        record::record_step(v.records).1 is More ==> filled(v).1 is More,
        record::record_step(v.records).1 is Fail ==> filled(v).1 is Fail,
{
}

/// More than 64 records without data, one after the other, are a fault.
pub proof fn law_too_many_empty_records(v: TlsView)
    requires
        v.empty == 64,
        record::record_step(v.records).1 is Record,
        record::record_step(v.records).1->Record_0 == ContentType::ApplicationData,
        record::record_step(v.records).1->Record_1.len() == 0,
    ensures
        filled(v).1 is Fail,
{
}

} // verus!
