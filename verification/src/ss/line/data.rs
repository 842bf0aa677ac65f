use vstd::prelude::*;

use super::{actions_view, Action, ActionView, Line, LineView};
use crate::ss::Status;

verus! {

/// Hands all of `mem_data` to the network, if there is any.
pub open spec fn flush_spec(l: LineView) -> (LineView, Seq<ActionView>) {
    if l.mem_data.len() > 0 {
        (LineView { mem_data: Seq::empty(), ..l }, seq![ActionView::Flush(l.mem_data)])
    } else {
        (l, Seq::empty())
    }
}

/// Bytes from the pair are queued and, unless the line is not yet connected
/// or already closed, flushed at once.
pub open spec fn on_data_from_mem_spec(l: LineView, data: Seq<u8>) -> (LineView, Seq<ActionView>) {
    let l1 = LineView { mem_data: l.mem_data + data, ..l };
    if l.status is Raw || l.status is Close || l.status is Dead {
        (l1, Seq::empty())
    } else {
        flush_spec(l1)
    }
}

/// The socket took the first `written` bytes of a flushed `data`; the rest
/// is queued again.
pub open spec fn finish_flush_spec(l: LineView, data: Seq<u8>, written: int) -> LineView {
    LineView { mem_data: l.mem_data + data.subrange(written, data.len() as int), ..l }
}

/// A flush followed by the report of a short write loses nothing and
/// repeats nothing: the bytes the socket did not take are queued again, in
/// order, and those it took were the first ones queued.
pub proof fn lemma_flush_then_finish(l: LineView, written: int)
    requires
        l.mem_data.len() > 0,
        0 <= written <= l.mem_data.len(),
    ensures
        flush_spec(l).1 == seq![ActionView::Flush(l.mem_data)],
        finish_flush_spec(flush_spec(l).0, l.mem_data, written).mem_data == l.mem_data.subrange(written, l.mem_data.len() as int),
        l.mem_data.subrange(0, written) + finish_flush_spec(flush_spec(l).0, l.mem_data, written).mem_data == l.mem_data,
{
    assert(Seq::<u8>::empty() + l.mem_data.subrange(written, l.mem_data.len() as int) =~= l.mem_data.subrange(written, l.mem_data.len() as int));
    assert(l.mem_data.subrange(0, written) + l.mem_data.subrange(written, l.mem_data.len() as int) =~= l.mem_data);
}

/// Everything read from the network, unchanged, is queued for the pair.
pub open spec fn move_network_data_to_garbage_spec(l: LineView) -> LineView {
    LineView { net_data: Seq::empty(), garbage: l.garbage + l.net_data, ..l }
}

impl Line {
    pub fn set_website_host(&mut self, s: String)
        ensures
            final(self)@ == (LineView { website_host: s@, ..old(self)@ }),
    {
        self.website_host = s;
    }

    pub fn move_network_data_to_garbage(&mut self)
        ensures
            final(self)@ == move_network_data_to_garbage_spec(old(self)@),
    {
        let n = self.net_data.len();
        let mut i: usize = 0;
        while i < n
            invariant
                n == self.net_data@.len(),
                i <= n,
                self.net_data@ == old(self).net_data@,
                self.garbage@ == old(self).garbage@ + self.net_data@.subrange(0, i as int),
                self@ == (LineView { garbage: self.garbage@, ..old(self)@ }),
            decreases n - i,
        {
            let b = self.net_data[i];
            self.garbage.push(b);
            proof {
                assert(self.net_data@.subrange(0, i + 1) =~= self.net_data@.subrange(0, i as int).push(b));
            }
            i = i + 1;
        }
        proof {
            assert(self.net_data@.subrange(0, n as int) =~= self.net_data@);
        }
        self.clear_network_data();
    }

    pub fn clear_network_data(&mut self)
        ensures
            final(self)@ == (LineView { net_data: Seq::empty(), ..old(self)@ }),
    {
        self.net_data.clear();
    }

    /// Bytes handed over by the pair; see [`on_data_from_mem_spec`].
    pub fn on_data_from_mem(&mut self, data: Vec<u8>) -> (acts: Vec<Action>)
        ensures
            (final(self)@, actions_view(acts@)) == on_data_from_mem_spec(old(self)@, data@),
    {
        self.append_mem_data(data);
        match self.status {
            Status::Raw | Status::Close | Status::Dead => {
                let acts: Vec<Action> = Vec::new();
                proof {
                    assert(actions_view(acts@) =~= Seq::<ActionView>::empty());
                }
                acts
            },
            _ => self.flush_mem_data_to_network(),
        }
    }

    /// Moves all pending bytes into a [`Action::Flush`]; the caller reports
    /// the written count back through [`Line::finish_flush`].
    pub fn flush_mem_data_to_network(&mut self) -> (acts: Vec<Action>)
        ensures
            (final(self)@, actions_view(acts@)) == flush_spec(old(self)@),
    {
        let mut acts: Vec<Action> = Vec::new();
        let len = self.mem_data.len();
        if len > 0 {
            let data = self.move_out_mem_data();
            acts.push(Action::Flush(data));
        }
        proof {
            assert(actions_view(acts@) =~= flush_spec(old(self)@).1);
        }
        acts
    }

    /// The socket took the first `written` bytes of a flushed `data`; the rest
    /// is queued again.
    pub fn finish_flush(&mut self, data: Vec<u8>, written: usize)
        requires
            written <= data@.len(),
        ensures
            final(self)@ == finish_flush_spec(old(self)@, data@, written as int),
    {
        if written < data.len() {
            let mut data = data;
            let rest = data.split_off(written);
            self.append_mem_data(rest);
        } else {
            proof {
                assert(old(self)@.mem_data + data@.subrange(written as int, data@.len() as int)
                    =~= old(self)@.mem_data);
            }
        }
    }

    /// Takes the bytes queued for the pair, leaving the queue empty.
    pub fn move_out_garbage(&mut self) -> (out: Vec<u8>)
        ensures
            out@ == old(self)@.garbage,
            final(self)@ == (LineView { garbage: Seq::empty(), ..old(self)@ }),
    {
        let mut out: Vec<u8> = Vec::new();
        std::mem::swap(&mut out, &mut self.garbage);
        out
    }

    pub fn clear_garbage(&mut self)
        ensures
            final(self)@ == (LineView { garbage: Seq::empty(), ..old(self)@ }),
    {
        self.garbage.clear();
    }

    pub fn append_mem_data(&mut self, data: Vec<u8>)
        ensures
            final(self)@ == (LineView { mem_data: old(self)@.mem_data + data@, ..old(self)@ }),
    {
        let mut data = data;
        self.mem_data.append(&mut data);
    }

    /// Takes the bytes waiting for the network, leaving the queue empty.
    pub fn move_out_mem_data(&mut self) -> (out: Vec<u8>)
        ensures
            out@ == old(self)@.mem_data,
            final(self)@ == (LineView { mem_data: Seq::empty(), ..old(self)@ }),
    {
        let mut out: Vec<u8> = Vec::new();
        std::mem::swap(&mut out, &mut self.mem_data);
        out
    }
}

/// Bytes from the pair are written out at once by every line that is
/// connected and not fully closed (a half-closed line too): one flush of
/// everything queued followed by the new bytes, leaving nothing queued. A
/// line not yet connected, or closed, keeps them queued and writes nothing.
pub proof fn lemma_pair_bytes_are_flushed(l: LineView, data: Seq<u8>)
    ensures
        !(l.status is Raw || l.status is Close || l.status is Dead) && l.mem_data.len() + data.len() > 0 ==> {
            &&& on_data_from_mem_spec(l, data).1 == seq![ActionView::Flush(l.mem_data + data)]
            &&& on_data_from_mem_spec(l, data).0 == (LineView { mem_data: Seq::empty(), ..l })
        },
        l.mem_data.len() + data.len() == 0 ==> on_data_from_mem_spec(l, data).1.len() == 0
            && on_data_from_mem_spec(l, data).0 == l,
        (l.status is Raw || l.status is Close || l.status is Dead) ==> {
            &&& on_data_from_mem_spec(l, data).1.len() == 0
            &&& on_data_from_mem_spec(l, data).0 == (LineView { mem_data: l.mem_data + data, ..l })
        },
        on_data_from_mem_spec(l, data).0.status == l.status,
        on_data_from_mem_spec(l, data).0.garbage == l.garbage,
        on_data_from_mem_spec(l, data).0.net_data == l.net_data,
{
    if l.mem_data.len() + data.len() == 0 {
        assert(l.mem_data + data =~= l.mem_data);
    }
}

/// Reporting a write keeps the bytes the socket did not take, in order,
/// after whatever is queued by then, and changes nothing else.
pub proof fn lemma_finish_flush_appends(l: LineView, data: Seq<u8>, written: int)
    requires
        0 <= written <= data.len(),
    ensures
        finish_flush_spec(l, data, written).mem_data.len() == l.mem_data.len() + data.len() - written,
        forall|i: int| 0 <= i < l.mem_data.len() ==> #[trigger] finish_flush_spec(l, data, written).mem_data[i] == l.mem_data[i],
        forall|i: int| 0 <= i < data.len() - written ==>
            #[trigger] finish_flush_spec(l, data, written).mem_data[l.mem_data.len() + i] == data[written + i],
        finish_flush_spec(l, data, written) == (LineView { mem_data: finish_flush_spec(l, data, written).mem_data, ..l }),
{
}

} // verus!
