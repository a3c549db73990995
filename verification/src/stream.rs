//! In-core model of the row channels that connect pipeline stages.
//!
//! A channel logically carries an ordered, unbounded sequence of rows. One
//! send endpoint and one receive endpoint form a pipe; both are plain handles
//! into a channel arena, so a sender kept by one stage and a receiver kept by
//! the next address the same ordered sequence.

use vstd::prelude::*;
use crate::errors::CrushError;
use crate::value::Value;

verus! {

/// One channel: the rows sent so far and how many of them the receive
/// endpoint has already consumed.
pub struct Channel {
    pub rows: Vec<Value>,
    pub read_pos: usize,
}

/// The state of one channel, as contracts speak of it.
#[verifier::ext_equal]
pub struct ChannelModel {
    /// Every row ever sent, in order.
    pub rows: Seq<Value>,
    /// How many of them have been consumed.
    pub read_pos: int,
}

impl View for Channel {
    type V = ChannelModel;

    open spec fn view(&self) -> ChannelModel {
        ChannelModel { rows: self.rows@, read_pos: self.read_pos as int }
    }
}

/// The arena of channels a machine owns.
pub struct Streams {
    pub chans: Vec<Channel>,
}

impl View for Streams {
    type V = Seq<ChannelModel>;

    open spec fn view(&self) -> Seq<ChannelModel> {
        self.chans@.map_values(|c: Channel| c@)
    }
}

/// The send endpoint of a channel.
#[derive(Clone, Copy, Debug)]
pub struct ValueSender {
    pub channel: usize,
}

/// The receive endpoint of a channel.
#[derive(Clone, Copy, Debug)]
pub struct ValueReceiver {
    pub channel: usize,
}

impl Streams {
    /// An arena with no channels yet.
    pub fn new() -> (s: Streams)
        ensures
            s@ =~= Seq::<ChannelModel>::empty(),
    {
        Streams { chans: Vec::new() }
    }

    /// A channel index is valid when it addresses an existing channel.
    pub open spec fn valid(self, c: int) -> bool {
        0 <= c < self@.len()
    }

    /// No channel has consumed more rows than were ever sent on it.
    pub open spec fn wf(self) -> bool {
        forall|c: int| 0 <= c < self@.len()
            ==> 0 <= (#[trigger] self@[c]).read_pos <= self@[c].rows.len()
    }

    /// Creates a fresh empty channel and hands back both endpoints.
    pub fn pipe(&mut self) -> (ends: (ValueSender, ValueReceiver))
        ensures
            old(self).wf() ==> final(self).wf(),
            ends.0.channel == ends.1.channel == old(self)@.len(),
            final(self)@ =~= old(self)@.push(ChannelModel { rows: Seq::empty(), read_pos: 0 }),
    {
        let id = self.chans.len();
        self.chans.push(Channel { rows: Vec::new(), read_pos: 0 });
        proof {
            assert(self@ =~= old(self)@.push(ChannelModel { rows: Seq::empty(), read_pos: 0 }));
        }
        (ValueSender { channel: id }, ValueReceiver { channel: id })
    }

    /// A fresh channel that is already exhausted, as handed to interior
    /// pipeline stages in place of real input.
    pub fn empty_channel(&mut self) -> (r: ValueReceiver)
        ensures
            old(self).wf() ==> final(self).wf(),
            r.channel == old(self)@.len(),
            final(self)@ =~= old(self)@.push(ChannelModel { rows: Seq::empty(), read_pos: 0 }),
    {
        let (_s, r) = self.pipe();
        r
    }

    /// A background sink: a fresh channel whose receive end is abandoned, so
    /// everything sent to it is absorbed. Used for intermediate stage output.
    pub fn black_hole(&mut self) -> (r: ValueSender)
        ensures
            old(self).wf() ==> final(self).wf(),
            r.channel == old(self)@.len(),
            final(self)@ =~= old(self)@.push(ChannelModel { rows: Seq::empty(), read_pos: 0 }),
    {
        let (s, _r) = self.pipe();
        s
    }

    /// Sends one row on the channel behind `sender`.
    pub fn send(&mut self, sender: ValueSender, v: Value)
        requires
            old(self).valid(sender.channel as int),
        ensures
            old(self).wf() ==> final(self).wf(),
            final(self)@ =~= old(self)@.update(
                sender.channel as int,
                ChannelModel {
                    rows: old(self)@[sender.channel as int].rows.push(v),
                    read_pos: old(self)@[sender.channel as int].read_pos,
                },
            ),
    {
        let i = sender.channel;
        let mut chan = self.chans.remove(i);
        chan.rows.push(v);
        self.chans.insert(i, chan);
        proof {
            assert(self@ =~= old(self)@.update(
                sender.channel as int,
                ChannelModel {
                    rows: old(self)@[sender.channel as int].rows.push(v),
                    read_pos: old(self)@[sender.channel as int].read_pos,
                },
            ));
        }
    }

    /// Receives the next not-yet-consumed row of the channel behind
    /// `receiver`, or reports the end of the stream. A consumed slot is
    /// surrendered: the stream is single-use.
    pub fn recv(&mut self, receiver: ValueReceiver) -> (r: Result<Value, CrushError>)
        requires
            old(self).valid(receiver.channel as int),
        ensures
            old(self).wf() ==> final(self).wf(),
            old(self)@[receiver.channel as int].read_pos < old(self)@[receiver.channel as int].rows.len() ==> {
                &&& r == Ok::<Value, CrushError>(
                    old(self)@[receiver.channel as int].rows[old(self)@[receiver.channel as int].read_pos],
                )
                &&& final(self)@ =~~= old(self)@.update(
                    receiver.channel as int,
                    ChannelModel {
                        rows: old(self)@[receiver.channel as int].rows.update(
                            old(self)@[receiver.channel as int].read_pos,
                            Value::Empty,
                        ),
                        read_pos: old(self)@[receiver.channel as int].read_pos + 1,
                    },
                )
            },
            old(self)@[receiver.channel as int].read_pos >= old(self)@[receiver.channel as int].rows.len() ==> {
                &&& r == Err::<Value, CrushError>(CrushError::EndOfStream)
                &&& final(self)@ =~= old(self)@
            },
    {
        let i = receiver.channel;
        let mut chan = self.chans.remove(i);
        if chan.read_pos < chan.rows.len() {
            let pos = chan.read_pos;
            let v = chan.rows.remove(pos);
            chan.rows.insert(pos, Value::Empty);
            chan.read_pos = pos + 1;
            proof {
                assert(chan.rows@ =~= old(self)@[i as int].rows.update(pos as int, Value::Empty));
            }
            self.chans.insert(i, chan);
            proof {
                assert(self@ =~~= old(self)@.update(
                    i as int,
                    ChannelModel {
                        rows: old(self)@[i as int].rows.update(pos as int, Value::Empty),
                        read_pos: pos + 1,
                    },
                ));
            }
            Ok(v)
        } else {
            self.chans.insert(i, chan);
            proof {
                assert(self@ =~= old(self)@);
            }
            Err(CrushError::EndOfStream)
        }
    }

    /// All rows sent on the channel behind `sender`, for inspection after a
    /// pipeline has finished.
    pub fn sent_rows(&self, sender: ValueSender) -> (r: &Vec<Value>)
        requires
            self.valid(sender.channel as int),
        ensures
            r@ == self@[sender.channel as int].rows,
    {
        &self.chans[sender.channel].rows
    }
}

} // verus!
