//! The offer and request exchange that precedes the file bodies.
use vstd::prelude::*;
use vstd::string::*;

use crate::file::{offers_view, ChunkHeader, FileHandle, FileOffer, OfferView, StdFileHandle};
use crate::message::{FileNegotiationPayload, FileRequestPayload, Message, RuckError};

verus! {

/// The offer of the sender's files.
pub fn offer_message(handles: &Vec<FileHandle>) -> (r: Message)
    ensures
        r@ is FileOffer,
        r@->FileOffer_0.len() == handles@.len(),
        forall|i: int|
            0 <= i < handles@.len() ==> {
                let o = #[trigger] r@->FileOffer_0[i];
                &&& o.id == handles@[i].id
                &&& o.path == handles@[i].path@
                &&& o.size == handles@[i].size
            },
{
    let mut files: Vec<FileOffer> = Vec::new();
    let mut i: usize = 0;
    while i < handles.len()
        invariant
            i <= handles@.len(),
            files@.len() == i,
            forall|j: int|
                0 <= j < i ==> {
                    let o = #[trigger] files@[j];
                    &&& o.id == handles@[j].id
                    &&& o.path@ == handles@[j].path@
                    &&& o.size == handles@[j].size
                },
        decreases handles@.len() - i,
    {
        files.push(handles[i].to_file_offer());
        i = i + 1;
    }
    Message::FileOffer(FileNegotiationPayload { files })
}

/// The requested chunks of the receiver's reply; a protocol error for any
/// other message.
pub fn requested_chunks(reply: Message) -> (r: Result<Vec<ChunkHeader>, RuckError>)
    ensures
        r is Ok <==> reply@ is FileRequest,
        r is Ok ==> r->Ok_0@ == reply@->FileRequest_0,
        r is Err ==> r->Err_0 == RuckError::ProtocolError,
{
    match reply {
        Message::FileRequest(p) => Ok(p.chunks),
        _ => Err(RuckError::ProtocolError),
    }
}

/// The offered files of the sender's first message; a protocol error for any
/// other message.
pub fn offered_files(msg: Message) -> (r: Result<Vec<FileOffer>, RuckError>)
    ensures
        r is Ok <==> msg@ is FileOffer,
        r is Ok ==> offers_view(r->Ok_0@) == msg@->FileOffer_0,
        r is Err ==> r->Err_0 == RuckError::ProtocolError,
{
    match msg {
        Message::FileOffer(p) => Ok(p.files),
        _ => Err(RuckError::ProtocolError),
    }
}

/// The items of `s` whose answer in `keep` is yes, in order.
pub open spec fn select(s: Seq<OfferView>, keep: Seq<bool>) -> Seq<OfferView>
    decreases s.len(),
{
    if s.len() == 0 || keep.len() == 0 {
        Seq::empty()
    } else if keep.last() {
        select(s.drop_last(), keep.drop_last()).push(s.last())
    } else {
        select(s.drop_last(), keep.drop_last())
    }
}

/// The offers that the user accepted, in offer order.
pub fn accepted_offers(offers: &Vec<FileOffer>, answers: &Vec<bool>) -> (r: Vec<FileOffer>)
    requires
        answers@.len() == offers@.len(),
    ensures
        offers_view(r@) == select(offers_view(offers@), answers@),
{
    let mut out: Vec<FileOffer> = Vec::new();
    let mut i: usize = 0;
    while i < offers.len()
        invariant
            i <= offers@.len(),
            answers@.len() == offers@.len(),
            offers_view(out@) == select(offers_view(offers@.take(i as int)), answers@.take(i as int)),
        decreases offers@.len() - i,
    {
        let ghost before = out@;
        if answers[i] {
            out.push(offers[i].duplicate());
            assert(offers_view(out@) == offers_view(before).push(offers@[i as int]@));
        }
        proof {
            let ov = offers_view(offers@.take(i + 1));
            let ans = answers@.take(i + 1);
            assert(ov.drop_last() == offers_view(offers@.take(i as int)));
            assert(ov.last() == offers@[i as int]@);
            assert(ans.drop_last() == answers@.take(i as int));
            assert(ans.last() == answers@[i as int]);
        }
        i = i + 1;
    }
    assert(offers@.take(offers@.len() as int) == offers@);
    assert(answers@.take(answers@.len() as int) == answers@);
    out
}

/// The request for the files that the receiver will write, in that order.
pub fn request_message(handles: &Vec<StdFileHandle>) -> (r: Message)
    ensures
        r@ is FileRequest,
        r@->FileRequest_0.len() == handles@.len(),
        forall|i: int|
            0 <= i < handles@.len() ==> #[trigger] r@->FileRequest_0[i] == (ChunkHeader {
                id: handles@[i].id,
                start: handles@[i].start,
            }),
{
    let mut chunks: Vec<ChunkHeader> = Vec::new();
    let mut i: usize = 0;
    while i < handles.len()
        invariant
            i <= handles@.len(),
            chunks@.len() == i,
            forall|j: int|
                0 <= j < i ==> #[trigger] chunks@[j] == (ChunkHeader {
                    id: handles@[j].id,
                    start: handles@[j].start,
                }),
        decreases handles@.len() - i,
    {
        chunks.push(ChunkHeader { id: handles[i].id, start: handles[i].start });
        i = i + 1;
    }
    Message::FileRequest(FileRequestPayload { chunks })
}

/// Whether two strings are equal.
pub fn same_str(a: &str, b: &str) -> (r: bool)
    ensures
        r == (a@ == b@),
{
    let n = a.unicode_len();
    if n != b.unicode_len() {
        return false;
    }
    let mut i: usize = 0;
    while i < n
        invariant
            n == a@.len() == b@.len(),
            i <= n,
            forall|j: int| 0 <= j < i ==> a@[j] == b@[j],
        decreases n - i,
    {
        if a.get_char(i) != b.get_char(i) {
            return false;
        }
        i = i + 1;
    }
    assert(a@ == b@);
    true
}

/// The answers that accept a file.
pub open spec fn is_yes(line: Seq<char>) -> bool {
    line == ""@ || line == "Y"@ || line == "y"@ || line == "yes"@ || line == "Yes"@ || line
        == "YES"@
}

/// The answers that decline a file.
pub open spec fn is_no(line: Seq<char>) -> bool {
    line == "N"@ || line == "n"@ || line == "NO"@ || line == "no"@ || line == "No"@
}

/// A user's answer to whether a file should be accepted: `Some(true)` for an
/// empty line or a form of yes, `Some(false)` for a form of no, `None` for
/// anything else.
pub fn parse_confirmation(line: &str) -> (r: Option<bool>)
    ensures
        r == (if is_yes(line@) {
            Some(true)
        } else if is_no(line@) {
            Some(false)
        } else {
            None
        }),
{
    if same_str(line, "") || same_str(line, "Y") || same_str(line, "y") || same_str(line, "yes")
        || same_str(line, "Yes") || same_str(line, "YES") {
        Some(true)
    } else if same_str(line, "N") || same_str(line, "n") || same_str(line, "NO") || same_str(
        line,
        "no",
    ) || same_str(line, "No") {
        Some(false)
    } else {
        None
    }
}

} // verus!
