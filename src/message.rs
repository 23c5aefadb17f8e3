use vstd::prelude::*;

verus! {

/// One application-visible message: a single body frame.
#[derive(Clone, Debug)]
pub struct ZmqMessage {
    pub data: Vec<u8>,
}

impl View for ZmqMessage {
    type V = Seq<u8>;

    open spec fn view(&self) -> Seq<u8> {
        self.data@
    }
}

impl ZmqMessage {
    pub fn new(data: Vec<u8>) -> (r: ZmqMessage)
        ensures
            r@ == data@,
    {
        ZmqMessage { data }
    }
}

/// Each frame of a deep view is the view of that frame.
pub proof fn lemma_frames_view(f: Vec<Vec<u8>>)
    ensures
        f.deep_view().len() == f@.len(),
        forall|i: int| 0 <= i < f@.len() ==> #[trigger] f.deep_view()[i] == f@[i]@,
{
    assert forall|i: int| 0 <= i < f@.len() implies #[trigger] f.deep_view()[i] == f@[i]@ by {
        assert(f@[i].deep_view() =~= f@[i]@);
    }
}

/// The two frames that REQ and REP put on the wire: an empty delimiter, then
/// the body.
pub open spec fn envelope_of(body: Seq<u8>) -> Seq<Seq<u8>> {
    seq![Seq::<u8>::empty(), body]
}

/// A wire message carries a REQ/REP envelope when it is exactly a delimiter
/// frame followed by one body frame.
pub open spec fn is_envelope(frames: Seq<Seq<u8>>) -> bool {
    frames.len() == 2 && frames[0].len() == 0
}

/// Frames `message` for the wire: delimiter first, body second.
pub fn wrap_envelope(message: ZmqMessage) -> (r: Vec<Vec<u8>>)
    ensures
        r.deep_view() == envelope_of(message@),
{
    let mut frames: Vec<Vec<u8>> = Vec::new();
    frames.push(Vec::new());
    frames.push(message.data);
    proof {
        let d = frames.deep_view();
        assert(d.len() == 2);
        assert(d[0] =~= Seq::<u8>::empty());
        assert(d[1] == message@);
        assert(d =~= envelope_of(message@));
    }
    frames
}

/// Takes the body out of a REQ/REP envelope; `None` when the frames have any
/// other shape.
pub fn open_envelope(frames: Vec<Vec<u8>>) -> (r: Option<ZmqMessage>)
    ensures
        r.is_some() <==> is_envelope(frames.deep_view()),
        r matches Some(m) ==> m@ == frames.deep_view()[1],
{
    if frames.len() != 2 || frames[0].len() != 0 {
        return None;
    }
    let ghost seen = frames.deep_view();
    let mut frames = frames;
    match frames.pop() {
        Some(body) => {
            assert(body@ == seen[1]);
            Some(ZmqMessage { data: body })
        },
        None => None,
    }
}

} // verus!
