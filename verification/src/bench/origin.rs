//! The HTTP origin of the benchmarks: which body a request gets, and whether the
//! connection goes on.
use crate::num::{decimal, decimal_string};
use crate::text::{
    cat5, lines, lines_in, lowered, same, split_once, split_words, to_lower, trim, trimmed, up_to,
    words_from,
};
use vstd::prelude::*;

verus! {

/// The largest request header that is read, in bytes.
pub const MAX_REQUEST_HEADER_BYTES: usize = 65_536;

/// The bodies that the origin serves.
#[derive(Clone, Copy, PartialEq, Eq, Structural, Debug)]
pub enum Body {
    /// Three bytes that say all is well.
    Health,
    /// 128 bytes.
    Small,
    /// Four KiB.
    FourKib,
    /// One MiB.
    OneMib,
}

impl Body {
    /// The number of bytes of a body.
    pub open spec fn size(self) -> nat {
        match self {
            Body::Health => 3,
            Body::Small => 128,
            Body::FourKib => 4096,
            Body::OneMib => 1_048_576,
        }
    }

    /// The number of bytes of a body.
    pub fn len(&self) -> (r: usize)
        ensures
            r == self.size(),
    {
        match self {
            Body::Health => 3,
            Body::Small => 128,
            Body::FourKib => 4096,
            Body::OneMib => 1_048_576,
        }
    }
}

/// The body for a path.
pub open spec fn body(path: Seq<char>) -> Body {
    if path == "/healthz"@ {
        Body::Health
    } else if path == "/4k"@ {
        Body::FourKib
    } else if path == "/1m"@ {
        Body::OneMib
    } else {
        Body::Small
    }
}

/// Choose the body for a path.
pub fn body_for_path(path: &str) -> (r: Body)
    ensures
        r == body(path@),
{
    if same(path, "/healthz") {
        Body::Health
    } else if same(path, "/4k") {
        Body::FourKib
    } else if same(path, "/1m") {
        Body::OneMib
    } else {
        Body::Small
    }
}

/// The path that a request asks for, without its query; `/` when it names none.
pub open spec fn request_path(request: Seq<char>) -> Seq<char> {
    let ls = lines_in(request);
    let words = words_from(ls[0], 0, Seq::empty());
    if ls.len() > 0 && words.len() > 1 {
        up_to(words[1], '?')
    } else {
        "/"@
    }
}

/// Whether a line asks for the end of the connection.
pub open spec fn asks_to_close(line: Seq<char>) -> bool {
    lowered(trimmed(line)) == "connection: close"@
}

/// Whether a request asks for the end of the connection.
pub open spec fn closes(request: Seq<char>) -> bool {
    exists|i: int| 0 <= i < lines_in(request).len() && asks_to_close(#[trigger] lines_in(request)[i])
}

/// What the origin answers: a body, and whether the connection ends.
pub struct Answer {
    pub body: Body,
    pub close: bool,
}

/// Answer a request.
pub fn answer(request: &str) -> (r: Answer)
    ensures
        r.body == body(request_path(request@)),
        r.close == closes(request@),
{
    let ls = lines(request);
    let ghost all = ls.deep_view();
    let mut kind = body_for_path("/");
    if ls.len() > 0 {
        assert(all[0] == ls@[0]@);
        let words = split_words(ls[0].as_str());
        if words.len() > 1 {
            assert(words.deep_view()[1] == words@[1]@);
            let target = words[1].as_str();
            let path = match split_once(target, '?') {
                Some((a, _)) => a,
                None => target,
            };
            kind = body_for_path(path);
        }
    }
    let mut close = false;
    let mut i: usize = 0;
    while i < ls.len()
        invariant
            i <= ls@.len(),
            all == ls.deep_view(),
            all == lines_in(request@),
            close == exists|j: int| 0 <= j < i && asks_to_close(#[trigger] all[j]),
        decreases ls@.len() - i,
    {
        assert(all[i as int] == ls@[i as int]@);
        let line = to_lower(trim(ls[i].as_str()));
        if same(line.as_str(), "connection: close") {
            assert(asks_to_close(all[i as int]));
            close = true;
        }
        i += 1;
    }
    Answer { body: kind, close }
}

/// The head of an answer with a body of `n` bytes.
pub fn answer_head(n: usize, close: bool) -> (r: String)
    ensures
        r@ == "HTTP/1.1 200 OK\r\nContent-Type: application/octet-stream\r\nContent-Length: "@
            + decimal(n as nat) + "\r\nConnection: "@ + (if close {
            "close"@
        } else {
            "keep-alive"@
        }) + "\r\n\r\n"@,
{
    let length = decimal_string(n as u64);
    let connection = if close {
        "close"
    } else {
        "keep-alive"
    };
    cat5(
        "HTTP/1.1 200 OK\r\nContent-Type: application/octet-stream\r\nContent-Length: ",
        length.as_str(),
        "\r\nConnection: ",
        connection,
        "\r\n\r\n",
    )
}

/// Whether an empty line ends the header at `i`.
pub open spec fn ends_header_at(bytes: Seq<u8>, i: int) -> bool {
    &&& 0 <= i
    &&& i + 4 <= bytes.len()
    &&& bytes[i] == 13
    &&& bytes[i + 1] == 10
    &&& bytes[i + 2] == 13
    &&& bytes[i + 3] == 10
}

/// What the bytes of a request that were read so far make.
#[derive(Clone, Copy, PartialEq, Eq, Structural, Debug)]
pub enum HeaderStep {
    /// A whole header.
    Complete,
    /// Too many bytes without one.
    TooLarge,
    /// A part of one.
    More,
}

/// Judge the bytes of a request that were read so far.
pub fn header_step(bytes: &Vec<u8>) -> (r: HeaderStep)
    ensures
        r == if exists|i: int| #[trigger] ends_header_at(bytes@, i) {
            HeaderStep::Complete
        } else if bytes@.len() > MAX_REQUEST_HEADER_BYTES {
            HeaderStep::TooLarge
        } else {
            HeaderStep::More
        },
{
    let n: usize = bytes.len();
    let mut i: usize = 0;
    while i < n
        invariant
            i <= n,
            n == bytes@.len(),
            forall|j: int| 0 <= j < i ==> !#[trigger] ends_header_at(bytes@, j),
        decreases n - i,
    {
        if n - i >= 4 && bytes[i] == 13 && bytes[i + 1] == 10 && bytes[i + 2] == 13 && bytes[i + 3]
            == 10 {
            assert(ends_header_at(bytes@, i as int));
            return HeaderStep::Complete;
        }
        i += 1;
    }
    assert forall|j: int| !#[trigger] ends_header_at(bytes@, j) by {}
    if n > MAX_REQUEST_HEADER_BYTES {
        HeaderStep::TooLarge
    } else {
        HeaderStep::More
    }
}

/// Whether a reply to the health check is good.
pub fn is_healthy_reply(reply: &[u8]) -> (r: bool)
    ensures
        r == (reply@.len() >= 12 && reply@.take(12) == seq![
            72u8,
            84u8,
            84u8,
            80u8,
            47u8,
            49u8,
            46u8,
            49u8,
            32u8,
            50u8,
            48u8,
            48u8,
        ]),
{
    if reply.len() < 12 {
        return false;
    }
    let r = reply[0] == 72 && reply[1] == 84 && reply[2] == 84 && reply[3] == 80 && reply[4] == 47
        && reply[5] == 49 && reply[6] == 46 && reply[7] == 49 && reply[8] == 32 && reply[9] == 50
        && reply[10] == 48 && reply[11] == 48;
    let ghost want = seq![72u8, 84u8, 84u8, 80u8, 47u8, 49u8, 46u8, 49u8, 32u8, 50u8, 48u8, 48u8];
    proof {
        if r {
            assert(reply@.take(12) == want);
        } else if reply@.take(12) == want {
            assert forall|i: int| 0 <= i < 12 implies reply@[i] == want[i] by {
                assert(reply@[i] == reply@.take(12)[i]);
            }
            assert(want[0] == 72 && want[1] == 84 && want[2] == 84 && want[3] == 80);
            assert(want[4] == 47 && want[5] == 49 && want[6] == 46 && want[7] == 49);
            assert(want[8] == 32 && want[9] == 50 && want[10] == 48 && want[11] == 48);
        }
    }
    r
}

} // verus!
