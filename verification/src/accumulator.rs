//! The section accumulator: the lines that a section search has slated for
//! output so far, and the rendered text of those that matched themselves.

use vstd::prelude::*;
use vstd::string::*;
use crate::label::{label, labelled};
use crate::record::OutputRecord;
use crate::text::texts_of;

verus! {

/// The mathematical content of a [`SectionAccumulator`].
pub struct AccumulatorView {
    /// The number of lines of the input.
    pub total: nat,
    /// The indices of the lines slated for output.
    pub slated: Set<int>,
    /// The rendered text of each line that matched itself.
    pub rendered: Map<int, Seq<char>>,
}

/// Collects, over one search, the lines that belong to the section of some
/// match. A line is held once however many sections it belongs to. A value
/// is made empty before the scan, filled during it, and drained once.
pub struct SectionAccumulator {
    slots: Vec<Slot>,
}

/// What the accumulator holds for one line of the input.
enum Slot {
    /// The line is not slated for output.
    Skipped,
    /// The line is slated for output as it stands.
    Slated,
    /// The line matched itself and is slated with its rendered text.
    Matched { text: String },
}

impl Slot {
    /// Tells whether the line is not slated.
    fn is_skipped(&self) -> (yes: bool)
        ensures
            yes == (self is Skipped),
    {
        match self {
            Slot::Skipped => true,
            _ => false,
        }
    }
}

impl View for SectionAccumulator {
    type V = AccumulatorView;

    /// The slated lines, and the rendered texts of those that matched.
    closed spec fn view(&self) -> AccumulatorView {
        AccumulatorView {
            total: self.slots@.len(),
            slated: Set::new(|i: int| 0 <= i < self.slots@.len() && !(self.slots@[i] is Skipped)),
            rendered: Map::new(
                |i: int| 0 <= i < self.slots@.len() && self.slots@[i] is Matched,
                |i: int| self.slots@[i]->text@,
            ),
        }
    }
}

/// The slated lines below `upto`, in ascending order.
pub open spec fn slated_below(slated: Set<int>, upto: int) -> Seq<int>
    decreases upto,
{
    if upto <= 0 {
        Seq::empty()
    } else if slated.contains(upto - 1) {
        slated_below(slated, upto - 1).push(upto - 1)
    } else {
        slated_below(slated, upto - 1)
    }
}

/// The text under which a slated line leaves the accumulator: its rendered
/// text if it matched itself, else the line as it stands, with its number
/// in front if numbers are shown.
pub open spec fn drained_text(
    acc: AccumulatorView,
    lines: Seq<Seq<char>>,
    line_numbers: bool,
    index: int,
) -> Seq<char> {
    if acc.rendered.dom().contains(index) {
        acc.rendered[index]
    } else {
        labelled(line_numbers, index, lines[index])
    }
}

/// `out` is what draining `acc` gives: one record for each slated line, in
/// ascending order of the lines.
pub open spec fn is_drained(
    acc: AccumulatorView,
    lines: Seq<Seq<char>>,
    line_numbers: bool,
    out: Seq<OutputRecord>,
) -> bool {
    let order = slated_below(acc.slated, acc.total as int);
    &&& out.len() == order.len()
    &&& forall|k: int|
        0 <= k < out.len() ==> {
            &&& (#[trigger] out[k]).index == order[k]
            &&& out[k].text@ == drained_text(acc, lines, line_numbers, order[k])
        }
}

/// The slated lines below `upto` are exactly the members of `slated` in
/// that range, each once, in strictly ascending order.
pub proof fn lemma_slated_below(slated: Set<int>, upto: int)
    ensures
        forall|k: int|
            0 <= k < slated_below(slated, upto).len() ==> {
                &&& 0 <= (#[trigger] slated_below(slated, upto)[k]) < upto
                &&& slated.contains(slated_below(slated, upto)[k])
            },
        forall|j: int, k: int|
            0 <= j < k < slated_below(slated, upto).len() ==> (#[trigger] slated_below(
                slated,
                upto,
            )[j]) < (#[trigger] slated_below(slated, upto)[k]),
        forall|i: int|
            0 <= i < upto && slated.contains(i) ==> slated_below(slated, upto).contains(i),
    decreases upto,
{
    if upto > 0 {
        let shorter = slated_below(slated, upto - 1);
        let order = slated_below(slated, upto);
        lemma_slated_below(slated, upto - 1);
        assert forall|i: int| 0 <= i < upto && slated.contains(i) implies order.contains(i) by {
            if i < upto - 1 {
                let k = choose|k: int| 0 <= k < shorter.len() && shorter[k] == i;
                assert(order[k] == i);
            } else {
                assert(order[order.len() - 1] == i);
            }
        }
    }
}

impl SectionAccumulator {
    /// An empty accumulator for an input of `total` lines.
    pub fn new(total: usize) -> (acc: SectionAccumulator)
        ensures
            acc@.total == total,
            acc@.slated == Set::<int>::empty(),
            acc@.rendered == Map::<int, Seq<char>>::empty(),
    {
        let mut slots: Vec<Slot> = Vec::new();
        let mut i: usize = 0;
        while i < total
            invariant
                i <= total,
                slots@.len() == i,
                forall|k: int| 0 <= k < i ==> slots@[k] is Skipped,
            decreases total - i,
        {
            slots.push(Slot::Skipped);
            i += 1;
        }
        let acc = SectionAccumulator { slots };
        acc
    }

    /// Keeps the rendered text of the matched line at `index` and slates
    /// the line for output.
    pub fn record(&mut self, index: usize, text: String)
        requires
            index < old(self)@.total,
        ensures
            final(self)@.total == old(self)@.total,
            final(self)@.slated == old(self)@.slated.insert(index as int),
            final(self)@.rendered == old(self)@.rendered.insert(index as int, text@),
    {
        self.slots.set(index, Slot::Matched { text });
    }

    /// Slates the lines from `lo` up to, but not including, `hi`.
    pub fn slate(&mut self, lo: usize, hi: usize)
        requires
            lo <= hi <= old(self)@.total,
        ensures
            final(self)@.total == old(self)@.total,
            final(self)@.rendered == old(self)@.rendered,
            final(self)@.slated == old(self)@.slated.union(Set::new(|i: int| lo <= i < hi)),
    {
        let mut next: usize = lo;
        while next < hi
            invariant
                lo <= next <= hi <= self.slots@.len(),
                self.slots@.len() == old(self).slots@.len(),
                forall|i: int|
                    0 <= i < self.slots@.len() ==> #[trigger] self.slots@[i] == (if lo <= i < next
                        && old(self).slots@[i] is Skipped {
                        Slot::Slated
                    } else {
                        old(self).slots@[i]
                    }),
            decreases hi - next,
        {
            if self.slots[next].is_skipped() {
                self.slots.set(next, Slot::Slated);
            }
            next += 1;
        }
    }

    /// Empties the accumulator into output records: one for each slated
    /// line, in ascending order. A line that matched itself is shown by its
    /// rendered text, any other as it stands in `lines`, numbered if
    /// numbers are shown.
    pub fn drain(self, lines: &Vec<String>, line_numbers: bool) -> (out: Vec<OutputRecord>)
        requires
            lines.len() == self@.total,
        ensures
            is_drained(self@, texts_of(lines@), line_numbers, out@),
    {
        let mut out: Vec<OutputRecord> = Vec::new();
        let mut index: usize = 0;
        while index < self.slots.len()
            invariant
                index <= self.slots@.len(),
                self.slots@.len() == lines.len(),
                out@.len() == slated_below(self@.slated, index as int).len(),
                forall|k: int|
                    0 <= k < out@.len() ==> {
                        &&& (#[trigger] out@[k]).index == slated_below(self@.slated, index as int)[k]
                        &&& out@[k].text@ == drained_text(
                            self@,
                            texts_of(lines@),
                            line_numbers,
                            slated_below(self@.slated, index as int)[k],
                        )
                    },
            decreases self.slots@.len() - index,
        {
            match &self.slots[index] {
                Slot::Skipped => {},
                Slot::Slated => {
                    let text = label(line_numbers, index, lines[index].clone());
                    out.push(OutputRecord { index, text });
                },
                Slot::Matched { text } => {
                    out.push(OutputRecord { index, text: text.clone() });
                },
            }
            index += 1;
        }
        out
    }
}

} // verus!
