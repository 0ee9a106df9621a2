//! What the receiving side makes of the messages that reach it.

use crate::string_map::StringMap;
use std::string::FromUtf8Error;
use vstd::prelude::*;
use vstd::utf8::{encode_utf8, valid_utf8};

verus! {

/// What a message is to the receiver.
pub enum Reading {
    /// Binary data: nothing comes of it.
    Skipped,
    /// A text that is not UTF-8: the transfer is broken off.
    Unreadable(FromUtf8Error),
    /// A text that may hold the initial message.
    Text(String),
}

/// Reads a message.
pub fn read_message(is_string: bool, data: Vec<u8>) -> (reading: Reading)
    ensures
        match reading {
            Reading::Skipped => !is_string,
            Reading::Unreadable(_) => is_string && !valid_utf8(data@),
            Reading::Text(text) => is_string && encode_utf8(text@) == data@,
        },
{
    if is_string {
        match String::from_utf8(data) {
            Ok(text) => Reading::Text(text),
            Err(e) => Reading::Unreadable(e),
        }
    } else {
        Reading::Skipped
    }
}

/// What the receiver keeps of an offered file.
pub struct OfferedFile {
    pub id: String,
    pub size: u64,
}

/// What is done with an initial message.
pub enum Verdict {
    /// The offered files are handed to the user, who has not seen any yet.
    Deliver,
    /// The transfer is broken off.
    Break,
}

/// The sizes of the offered files, and whether the user was told of any.
pub struct Intake {
    sizes: StringMap<u64>,
    delivered: bool,
}

/// What an [`Intake`] holds.
pub struct IntakeModel {
    pub sizes: Map<Seq<char>, u64>,
    pub delivered: bool,
}

impl View for Intake {
    type V = IntakeModel;

    closed spec fn view(&self) -> IntakeModel {
        IntakeModel { sizes: self.sizes@, delivered: self.delivered }
    }
}

/// The sizes once some files were offered: of two with one id, the later counts.
pub open spec fn with_sizes(sizes: Map<Seq<char>, u64>, files: Seq<OfferedFile>) -> Map<
    Seq<char>,
    u64,
>
    decreases files.len(),
{
    if files.len() == 0 {
        sizes
    } else {
        with_sizes(sizes, files.drop_last()).insert(files.last().id@, files.last().size)
    }
}

impl IntakeModel {
    /// What an initial message changes, and what is done with it. `None` stands
    /// for a text that is not one.
    pub open spec fn next(self, files: Option<Seq<OfferedFile>>) -> (IntakeModel, Verdict) {
        match files {
            None => (self, Verdict::Break),
            Some(offered) => (
                IntakeModel { sizes: with_sizes(self.sizes, offered), delivered: true },
                if self.delivered {
                    Verdict::Break
                } else {
                    Verdict::Deliver
                },
            ),
        }
    }
}

impl Intake {
    /// Nothing was offered yet.
    pub fn new() -> (intake: Intake)
        ensures
            intake@.sizes == Map::<Seq<char>, u64>::empty(),
            !intake@.delivered,
    {
        Intake { sizes: StringMap::new(), delivered: false }
    }

    /// The size that the file `id` was offered with.
    pub fn size(&self, id: &String) -> (size: Option<u64>)
        ensures
            match size {
                Some(n) => self@.sizes.contains_key(id@) && n == self@.sizes[id@],
                None => !self@.sizes.contains_key(id@),
            },
    {
        match self.sizes.get(id) {
            Some(n) => Some(*n),
            None => None,
        }
    }

    /// Takes in the files of an initial message; `None` stands for a text that
    /// is not one.
    pub fn accept_initial(&mut self, files: Option<&Vec<OfferedFile>>) -> (verdict: Verdict)
        ensures
            (final(self)@, verdict) == old(self)@.next(
                match files {
                    Some(offered) => Some(offered@),
                    None => None,
                },
            ),
    {
        match files {
            None => Verdict::Break,
            Some(offered) => {
                let mut i: usize = 0;
                assert(offered@.take(0) =~= Seq::empty());
                while i < offered.len()
                    invariant
                        i <= offered@.len(),
                        self.sizes@ == with_sizes(old(self)@.sizes, offered@.take(i as int)),
                        self.delivered == old(self)@.delivered,
                    decreases offered@.len() - i,
                {
                    self.sizes.insert(offered[i].id.clone(), offered[i].size);
                    assert(offered@.take(i + 1).drop_last() =~= offered@.take(i as int));
                    i += 1;
                }
                assert(offered@.take(i as int) =~= offered@);
                let late = self.delivered;
                self.delivered = true;
                if late {
                    Verdict::Break
                } else {
                    Verdict::Deliver
                }
            },
        }
    }
}

/// What was done with some initial messages, first to last.
pub open spec fn verdicts(start: IntakeModel, messages: Seq<Option<Seq<OfferedFile>>>) -> Seq<
    Verdict,
>
    decreases messages.len(),
{
    if messages.len() == 0 {
        Seq::empty()
    } else {
        let (after, verdict) = start.next(messages.first());
        seq![verdict] + verdicts(after, messages.drop_first())
    }
}

/// An initial message is delivered just where it is the first; a text that is none,
/// and every initial message after the first, breaks the transfer off.
pub proof fn law_the_first_initial_message_and_no_other_is_delivered(
    start: IntakeModel,
    messages: Seq<Option<Seq<OfferedFile>>>,
    i: int,
)
    requires
        !start.delivered,
        0 <= i < messages.len(),
    ensures
        verdicts(start, messages).len() == messages.len(),
        verdicts(start, messages)[i] is Deliver <==> messages[i] is Some && forall|j: int|
            0 <= j < i ==> #[trigger] messages[j] is None,
{
    lemma_verdicts_len(start, messages);
    if messages[i] is Some && forall|j: int| 0 <= j < i ==> #[trigger] messages[j] is None {
        law_the_first_initial_message_is_delivered(start, messages, i);
    } else {
        lemma_not_delivered(start, messages, i);
    }
}

/// What is not the first initial message is not delivered.
proof fn lemma_not_delivered(
    start: IntakeModel,
    messages: Seq<Option<Seq<OfferedFile>>>,
    i: int,
)
    requires
        0 <= i < messages.len(),
        messages[i] is None || exists|j: int| 0 <= j < i && #[trigger] messages[j] is Some,
    ensures
        verdicts(start, messages)[i] is Break,
    decreases messages.len(),
{
    let rest = messages.drop_first();
    let after = start.next(messages.first()).0;
    lemma_verdicts_len(after, rest);
    if i > 0 {
        if messages[0] is Some {
            lemma_no_second_delivery(after, rest, i - 1);
        } else {
            if messages[i] is Some {
                let j = choose|j: int| 0 <= j < i && #[trigger] messages[j] is Some;
                assert(rest[j - 1] is Some);
            }
            lemma_not_delivered(after, rest, i - 1);
        }
    }
}

/// A text that is no initial message changes nothing. An initial message sets the
/// size of each file that it offers to the one that it was offered with last, and
/// leaves the sizes of the others alone.
pub proof fn law_what_an_initial_message_changes(
    start: IntakeModel,
    files: Seq<OfferedFile>,
    id: Seq<char>,
    i: int,
)
    ensures
        start.next(None).0 == start,
        ({
            let sizes = start.next(Some(files)).0.sizes;
            &&& 0 <= i < files.len() && files[i].id@ == id && (forall|j: int|
                i < j < files.len() ==> #[trigger] files[j].id@ != id) ==> sizes.contains_key(id)
                && sizes[id] == files[i].size
            &&& (forall|j: int| 0 <= j < files.len() ==> #[trigger] files[j].id@ != id)
                ==> sizes.contains_key(id) == start.sizes.contains_key(id) && (
            start.sizes.contains_key(id) ==> sizes[id] == start.sizes[id])
        }),
{
    law_sizes_are_those_offered_last(start.sizes, files, id);
    if 0 <= i < files.len() && files[i].id@ == id && (forall|j: int|
        i < j < files.len() ==> #[trigger] files[j].id@ != id) {
        let after = with_sizes(start.sizes, files);
        let k = choose|k: int|
            0 <= k < files.len() && #[trigger] files[k].id@ == id && after.contains_key(id)
                && after[id] == files[k].size && forall|j: int|
                k < j < files.len() ==> #[trigger] files[j].id@ != id;
        assert(files[i].id@ == id);
        assert(k == i);
    }
}

/// The user is told of the offered files once at most.
pub proof fn law_files_are_delivered_once(
    start: IntakeModel,
    messages: Seq<Option<Seq<OfferedFile>>>,
    i: int,
    j: int,
)
    requires
        0 <= i < j < messages.len(),
    ensures
        verdicts(start, messages).len() == messages.len(),
        verdicts(start, messages)[i] is Deliver ==> verdicts(start, messages)[j] is Break,
    decreases messages.len(),
{
    let rest = messages.drop_first();
    let after = start.next(messages.first()).0;
    lemma_verdicts_len(after, rest);
    if i == 0 {
        if verdicts(start, messages)[0] is Deliver {
            lemma_no_second_delivery(after, rest, j - 1);
        }
    } else {
        law_files_are_delivered_once(after, rest, i - 1, j - 1);
    }
}

/// There is a verdict for each message.
proof fn lemma_verdicts_len(start: IntakeModel, messages: Seq<Option<Seq<OfferedFile>>>)
    ensures
        verdicts(start, messages).len() == messages.len(),
    decreases messages.len(),
{
    if messages.len() > 0 {
        lemma_verdicts_len(start.next(messages.first()).0, messages.drop_first());
    }
}

/// After a delivery there is no other.
proof fn lemma_no_second_delivery(
    start: IntakeModel,
    messages: Seq<Option<Seq<OfferedFile>>>,
    j: int,
)
    requires
        start.delivered,
        0 <= j < messages.len(),
    ensures
        verdicts(start, messages)[j] is Break,
    decreases messages.len(),
{
    lemma_verdicts_len(start.next(messages.first()).0, messages.drop_first());
    if j > 0 {
        lemma_no_second_delivery(start.next(messages.first()).0, messages.drop_first(), j - 1);
    }
}

/// The first initial message is delivered, whatever texts came before it that
/// were none.
pub proof fn law_the_first_initial_message_is_delivered(
    start: IntakeModel,
    messages: Seq<Option<Seq<OfferedFile>>>,
    i: int,
)
    requires
        !start.delivered,
        0 <= i < messages.len(),
        messages[i] is Some,
        forall|j: int| 0 <= j < i ==> #[trigger] messages[j] is None,
    ensures
        verdicts(start, messages)[i] is Deliver,
    decreases messages.len(),
{
    let rest = messages.drop_first();
    lemma_verdicts_len(start.next(messages.first()).0, rest);
    if i > 0 {
        assert(messages[0] is None);
        assert forall|j: int| 0 <= j < i - 1 implies #[trigger] rest[j] is None by {
            assert(messages[j + 1] is None);
        }
        law_the_first_initial_message_is_delivered(start, rest, i - 1);
    }
}

/// Each offered file has the size that it was offered with last, and the others
/// keep theirs.
pub proof fn law_sizes_are_those_offered_last(
    sizes: Map<Seq<char>, u64>,
    files: Seq<OfferedFile>,
    id: Seq<char>,
)
    ensures
        ({
            let after = with_sizes(sizes, files);
            ||| exists|i: int|
                0 <= i < files.len() && #[trigger] files[i].id@ == id && after.contains_key(id)
                    && after[id] == files[i].size && forall|j: int|
                    i < j < files.len() ==> #[trigger] files[j].id@ != id
            ||| (forall|i: int| 0 <= i < files.len() ==> #[trigger] files[i].id@ != id)
                && after.contains_key(id) == sizes.contains_key(id) && (sizes.contains_key(id)
                ==> after[id] == sizes[id])
        }),
    decreases files.len(),
{
    if files.len() > 0 {
        let fewer = files.drop_last();
        let after = with_sizes(sizes, files);
        law_sizes_are_those_offered_last(sizes, fewer, id);
        if files.last().id@ == id {
            assert(files[files.len() - 1].id@ == id);
        } else if exists|i: int| 0 <= i < fewer.len() && #[trigger] fewer[i].id@ == id {
            let i = choose|i: int|
                0 <= i < fewer.len() && #[trigger] fewer[i].id@ == id && with_sizes(
                    sizes,
                    fewer,
                )[id] == fewer[i].size && forall|j: int|
                    i < j < fewer.len() ==> #[trigger] fewer[j].id@ != id;
            assert(files[i].id@ == id);
            assert forall|j: int| i < j < files.len() implies #[trigger] files[j].id@ != id by {
                if j < fewer.len() {
                    assert(fewer[j].id@ != id);
                }
            }
        } else {
            assert forall|i: int| 0 <= i < files.len() implies #[trigger] files[i].id@ != id by {
                if i < fewer.len() {
                    assert(fewer[i].id@ != id);
                }
            }
        }
    }
}

} // verus!
