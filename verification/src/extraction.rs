//! Taking the thumbnail out of a video: which step comes next, what each
//! outcome leads to, and what is handed back in the end.
//!
//! The steps themselves (seeking, reading a packet, decoding it) are the
//! caller's. The `Sampler` says which step is due and is told how it went.

use crate::frame::flatten;
use crate::frame::holds_frame;
use crate::frame::normalize;
use crate::frame::normalized_pixels;
use crate::metadata::describe_video;
use crate::metadata::with_video_entries;
use crate::metadata::Metadata;
use crate::select::best_position;
use crate::select::is_first_best;
use crate::select::select_best;
use crate::select::Candidate;
use crate::stream::StreamDuration;
use crate::stream::StreamGeometry;
use crate::stream::SAMPLE_COUNT;
use crate::thumbnail::RgbImage;
use vstd::prelude::*;
use vstd::string::StringExecFns;

verus! {

/// The packets of the video stream that are handed to the decoder at one
/// sample point before the point is given up.
pub const PACKET_BUDGET: u32 = 20;

/// What is known of a video once it is open.
#[derive(Clone, Copy, Debug, PartialEq, Eq)]
pub struct StreamInfo {
    /// The number of the video stream among the streams of the file.
    pub video_stream: usize,
    /// The size of its frames and the shape of its pixels.
    pub geometry: StreamGeometry,
    /// How long it lasts.
    pub duration: StreamDuration,
}

/// Why no thumbnail was taken.
#[derive(Clone, Debug, PartialEq, Eq)]
pub enum ExtractionError {
    /// The file could not be read as a video; the text says why.
    Open(String),
    /// The file holds no video stream.
    NoVideoStream,
    /// No decoder could be set up for the stream; the text says why.
    Decode(String),
    /// No frame was decoded at any sample point.
    EmptyCandidateSet,
}

impl ExtractionError {
    /// The cause in words.
    pub fn message(&self) -> (text: String)
        ensures
            text@ == match *self {
                ExtractionError::Open(cause) => cause@,
                ExtractionError::NoVideoStream => "No video stream found"@,
                ExtractionError::Decode(cause) => cause@,
                ExtractionError::EmptyCandidateSet => "No frames could be extracted"@,
            },
    {
        match self {
            ExtractionError::Open(cause) => cause.clone(),
            ExtractionError::NoVideoStream => String::from_str("No video stream found"),
            ExtractionError::Decode(cause) => cause.clone(),
            ExtractionError::EmptyCandidateSet => String::from_str("No frames could be extracted"),
        }
    }
}

/// The thumbnail of a video and what is told beside it.
pub struct ExtractionResult {
    /// The chosen frame.
    pub thumbnail: RgbImage,
    /// The size of the video, the shape of its pixels and its duration.
    pub metadata: Metadata,
}

/// Whether `found` shows the frame of `candidate`, byte for byte, and tells
/// of the video what `info` holds.
pub open spec fn shows(found: ExtractionResult, candidate: Candidate, info: StreamInfo) -> bool {
    &&& found.thumbnail.width == candidate.frame.width
    &&& found.thumbnail.height == candidate.frame.height
    &&& found.thumbnail.pixels@ == flatten(candidate.frame.pixels@)
    &&& found.metadata@ == with_video_entries(Map::empty(), info.geometry, info.duration)
}

/// Chooses among the candidates and hands back the chosen frame with the
/// video's metadata: the frame with the greatest weighted sum of scores, and
/// of several with the greatest, the one from the earliest sample point.
/// Fails where there is no candidate.
pub fn build_result(candidates: &Vec<Candidate>, info: &StreamInfo) -> (result: Result<
    ExtractionResult,
    ExtractionError,
>)
    ensures
        candidates@.len() == 0 <==> result is Err,
        result matches Err(e) ==> e == ExtractionError::EmptyCandidateSet,
        result matches Ok(found) ==> is_first_best(candidates@, best_position(candidates@))
            && shows(found, candidates@[best_position(candidates@)], *info),
        result matches Ok(found) ==> (candidates@[best_position(candidates@)].frame.wf()
            ==> found.thumbnail.wf()),
{
    match select_best(candidates.as_slice()) {
        None => Err(ExtractionError::EmptyCandidateSet),
        Some(at) => {
            let frame = &candidates[at].frame;
            proof {
                assert(3 * (frame.width * frame.height) == 3 * frame.width * frame.height)
                    by (nonlinear_arith);
            }
            let thumbnail = RgbImage {
                pixels: frame.to_rgb(),
                width: frame.width,
                height: frame.height,
            };
            let mut metadata = Metadata::new();
            describe_video(&mut metadata, &info.geometry, &info.duration);
            Ok(ExtractionResult { thumbnail, metadata })
        },
    }
}

/// Where the sampling stands.
#[derive(Clone, Copy, Debug, PartialEq, Eq)]
pub enum SamplerState {
    /// A seek to the sample point is due.
    Seeking { sample: usize },
    /// The seek was done, and the decoder is to be emptied.
    Flushing { sample: usize },
    /// A packet is to be read; `sent` packets of the video stream were
    /// handed to the decoder at this sample point.
    Reading { sample: usize, sent: u32 },
    /// The packet that was read is to be decoded; it is the `sent`-th at
    /// this sample point.
    Decoding { sample: usize, sent: u32 },
    /// All sample points were visited.
    Finished,
}

/// What the caller is to do next.
#[derive(Clone, Copy, Debug, PartialEq, Eq)]
pub enum SamplerAction {
    /// Seek to the key frame at or before `seconds`.
    Seek { seconds: i64 },
    /// Empty the decoder of what it holds from before the seek.
    FlushDecoder,
    /// Read the next packet of the file.
    ReadPacket,
    /// Hand the packet that was read to the decoder, take a frame from it
    /// and convert the frame to RGB at the size at which it is shown.
    DecodePacket,
    /// Nothing more: ask for the result.
    Finish,
}

/// How a step went.
#[derive(Clone, Debug, PartialEq, Eq)]
pub enum SamplerEvent {
    /// The seek failed.
    SeekFailed,
    /// The seek was done.
    SeekDone,
    /// The decoder was emptied.
    Flushed,
    /// The file has no more packets.
    EndOfPackets,
    /// A packet of the stream `stream` was read.
    Packet { stream: usize },
    /// The decoder took no packet, gave no frame, or the frame was not
    /// converted.
    NoFrame,
    /// A frame was decoded and converted: `data` holds it as interleaved RGB
    /// bytes, its rows `stride` bytes apart.
    Frame { data: Vec<u8>, stride: usize },
}

/// The state at the sample point after `sample`, or at the end.
pub open spec fn after_sample(sample: usize) -> SamplerState {
    if sample + 1 < SAMPLE_COUNT {
        SamplerState::Seeking { sample: (sample + 1) as usize }
    } else {
        SamplerState::Finished
    }
}

/// Whether a frame of the size `size` can be taken out of `data`.
pub open spec fn takes_frame(data: Seq<u8>, stride: int, size: (u32, u32)) -> bool {
    holds_frame(data.len() as int, stride, size.0 as int, size.1 as int) && size.0 * size.1
        <= u32::MAX
}

/// The state that an event leads to. A failed seek gives the sample point
/// up, and so does the end of the packets; a packet of another stream is
/// passed over; a packet of the video stream is decoded unless
/// `PACKET_BUDGET` of them were decoded at this sample point, which gives the
/// point up; the first frame ends the sample point. An event that does not
/// answer the step that was due changes nothing.
pub open spec fn next_state(state: SamplerState, event: SamplerEvent, info: StreamInfo) -> SamplerState {
    match state {
        SamplerState::Seeking { sample } => match event {
            SamplerEvent::SeekFailed => after_sample(sample),
            SamplerEvent::SeekDone => SamplerState::Flushing { sample },
            _ => state,
        },
        SamplerState::Flushing { sample } => match event {
            SamplerEvent::Flushed => SamplerState::Reading { sample, sent: 0 },
            _ => state,
        },
        SamplerState::Reading { sample, sent } => match event {
            SamplerEvent::EndOfPackets => after_sample(sample),
            SamplerEvent::Packet { stream } => if stream != info.video_stream {
                state
            } else if sent >= PACKET_BUDGET {
                after_sample(sample)
            } else {
                SamplerState::Decoding { sample, sent: (sent + 1) as u32 }
            },
            _ => state,
        },
        SamplerState::Decoding { sample, sent } => match event {
            SamplerEvent::NoFrame => SamplerState::Reading { sample, sent },
            SamplerEvent::Frame { data, stride } => if takes_frame(
                data@,
                stride as int,
                info.geometry.output_size(),
            ) {
                after_sample(sample)
            } else {
                SamplerState::Reading { sample, sent }
            },
            _ => state,
        },
        SamplerState::Finished => state,
    }
}

/// Whether an event brings a candidate: whether it is a frame that answers
/// a decoding step and can be taken out of its buffer.
pub open spec fn brings_candidate(state: SamplerState, event: SamplerEvent, info: StreamInfo) -> bool {
    &&& state is Decoding
    &&& event matches SamplerEvent::Frame { data, stride }
    &&& takes_frame(data@, stride as int, info.geometry.output_size())
}

/// Whether `candidate` is what the event brings: the frame in canonical form
/// at the size at which it is shown, with its scores and the sample point
/// that was being decoded.
pub open spec fn records(
    candidate: Candidate,
    state: SamplerState,
    event: SamplerEvent,
    info: StreamInfo,
) -> bool {
    &&& state matches SamplerState::Decoding { sample, sent }
    &&& event matches SamplerEvent::Frame { data, stride }
    &&& candidate.sample == sample
    &&& candidate.frame.width == info.geometry.output_size().0
    &&& candidate.frame.height == info.geometry.output_size().1
    &&& candidate.frame.pixels@ == normalized_pixels(
        data@,
        stride as int,
        candidate.frame.width as int,
        candidate.frame.height as int,
    )
    &&& candidate.wf()
}

/// The step that is due in a state.
pub open spec fn action_for(state: SamplerState, info: StreamInfo) -> SamplerAction {
    match state {
        SamplerState::Seeking { sample } => SamplerAction::Seek {
            seconds: info.duration.seek_target_spec(sample as int) as i64,
        },
        SamplerState::Flushing { sample } => SamplerAction::FlushDecoder,
        SamplerState::Reading { sample, sent } => SamplerAction::ReadPacket,
        SamplerState::Decoding { sample, sent } => SamplerAction::DecodePacket,
        SamplerState::Finished => SamplerAction::Finish,
    }
}

/// The sample point that a state is at; the number of sample points at the
/// end.
pub open spec fn frontier(state: SamplerState) -> int {
    match state {
        SamplerState::Seeking { sample } => sample as int,
        SamplerState::Flushing { sample } => sample as int,
        SamplerState::Reading { sample, sent } => sample as int,
        SamplerState::Decoding { sample, sent } => sample as int,
        SamplerState::Finished => SAMPLE_COUNT as int,
    }
}

/// Whether a state is one that sampling comes to: at one of the sample
/// points, with no more packets handed to the decoder than `PACKET_BUDGET`.
pub open spec fn in_range(state: SamplerState) -> bool {
    match state {
        SamplerState::Seeking { sample } => sample < SAMPLE_COUNT,
        SamplerState::Flushing { sample } => sample < SAMPLE_COUNT,
        SamplerState::Reading { sample, sent } => sample < SAMPLE_COUNT && sent <= PACKET_BUDGET,
        SamplerState::Decoding { sample, sent } => sample < SAMPLE_COUNT && 1 <= sent
            <= PACKET_BUDGET,
        SamplerState::Finished => true,
    }
}

/// No more than this many events can still change the state.
pub open spec fn steps_left(state: SamplerState) -> int {
    match state {
        SamplerState::Seeking { sample } => (SAMPLE_COUNT - sample) * 44,
        SamplerState::Flushing { sample } => (SAMPLE_COUNT - sample) * 44 - 1,
        SamplerState::Reading { sample, sent } => (SAMPLE_COUNT - sample) * 44 - 2 - 2 * sent,
        SamplerState::Decoding { sample, sent } => (SAMPLE_COUNT - sample) * 44 - 1 - 2 * sent,
        SamplerState::Finished => 0,
    }
}

/// Sampling ends: an event leaves the state as it is or brings the end
/// nearer, so that the state changes 176 times at most. The events that leave
/// it are those that do not answer the step that was due, and the packets of
/// other streams.
pub proof fn lemma_sampling_ends(state: SamplerState, event: SamplerEvent, info: StreamInfo)
    requires
        in_range(state),
    ensures
        in_range(next_state(state, event, info)),
        0 <= steps_left(next_state(state, event, info)) <= steps_left(state) <= 176,
        next_state(state, event, info) != state ==> steps_left(next_state(state, event, info))
            < steps_left(state),
        steps_left(state) == 0 <==> state is Finished,
{
}

/// Whether the candidates are whole, of the size `size`, from sample points
/// before `frontier`, and in the order of their sample points.
pub open spec fn well_sampled(candidates: Seq<Candidate>, size: (u32, u32), frontier: int) -> bool {
    &&& forall|i: int|
        0 <= i < candidates.len() ==> {
            &&& (#[trigger] candidates[i]).wf()
            &&& candidates[i].frame.width == size.0
            &&& candidates[i].frame.height == size.1
            &&& candidates[i].sample < frontier
        }
    &&& forall|i: int, j: int|
        0 <= i < j < candidates.len() ==> (#[trigger] candidates[i]).sample < (
        #[trigger] candidates[j]).sample
}

/// What a `Sampler` holds.
pub struct SamplerView {
    /// The video.
    pub info: StreamInfo,
    /// Where the sampling stands.
    pub state: SamplerState,
    /// The frames that were decoded, in the order of their sample points.
    pub candidates: Seq<Candidate>,
}

/// The sampling of one video: four sample points, at the start and at one,
/// two and three quarters of the duration, visited in this order.
pub struct Sampler {
    info: StreamInfo,
    state: SamplerState,
    candidates: Vec<Candidate>,
}

impl View for Sampler {
    type V = SamplerView;

    closed spec fn view(&self) -> SamplerView {
        SamplerView { info: self.info, state: self.state, candidates: self.candidates@ }
    }
}

impl Sampler {
    #[verifier::type_invariant]
    spec fn sound(self) -> bool {
        &&& in_range(self.state)
        &&& well_sampled(self.candidates@, self.info.geometry.output_size(), frontier(self.state))
    }

    /// The sampling of the video `info`, before its first step.
    pub fn new(info: StreamInfo) -> (sampler: Sampler)
        ensures
            sampler@.info == info,
            sampler@.state == (SamplerState::Seeking { sample: 0 }),
            sampler@.candidates == Seq::<Candidate>::empty(),
    {
        Sampler { info, state: SamplerState::Seeking { sample: 0 }, candidates: Vec::new() }
    }

    /// The video.
    pub fn info(&self) -> (info: StreamInfo)
        ensures
            info == self@.info,
    {
        self.info
    }

    /// Where the sampling stands.
    pub fn state(&self) -> (state: SamplerState)
        ensures
            state == self@.state,
            in_range(state),
    {
        proof {
            use_type_invariant(self);
        }
        self.state
    }

    /// The frames that were decoded so far: whole, of the size at which the
    /// video is shown, and in the order of their sample points.
    pub fn candidates(&self) -> (candidates: &Vec<Candidate>)
        ensures
            candidates@ == self@.candidates,
            well_sampled(
                candidates@,
                self@.info.geometry.output_size(),
                frontier(self@.state),
            ),
    {
        proof {
            use_type_invariant(self);
        }
        &self.candidates
    }

    /// The step that is due.
    pub fn action(&self) -> (action: SamplerAction)
        ensures
            action == action_for(self@.state, self@.info),
    {
        proof {
            use_type_invariant(self);
        }
        match self.state {
            SamplerState::Seeking { sample } => SamplerAction::Seek {
                seconds: self.info.duration.seek_target(sample),
            },
            SamplerState::Flushing { sample } => SamplerAction::FlushDecoder,
            SamplerState::Reading { sample, sent } => SamplerAction::ReadPacket,
            SamplerState::Decoding { sample, sent } => SamplerAction::DecodePacket,
            SamplerState::Finished => SamplerAction::Finish,
        }
    }

    /// The state at the sample point after `sample`, or at the end.
    fn past(sample: usize) -> (state: SamplerState)
        requires
            sample < SAMPLE_COUNT,
        ensures
            state == after_sample(sample),
    {
        if sample + 1 < SAMPLE_COUNT {
            SamplerState::Seeking { sample: sample + 1 }
        } else {
            SamplerState::Finished
        }
    }

    /// Takes note of how the step that was due went.
    pub fn handle(&mut self, event: SamplerEvent)
        ensures
            final(self)@.info == old(self)@.info,
            final(self)@.state == next_state(old(self)@.state, event, old(self)@.info),
            !brings_candidate(old(self)@.state, event, old(self)@.info) ==> final(self)@.candidates
                == old(self)@.candidates,
            brings_candidate(old(self)@.state, event, old(self)@.info) ==> {
                &&& final(self)@.candidates.len() == old(self)@.candidates.len() + 1
                &&& final(self)@.candidates.drop_last() == old(self)@.candidates
                &&& records(
                    final(self)@.candidates.last(),
                    old(self)@.state,
                    event,
                    old(self)@.info,
                )
            },
    {
        proof {
            use_type_invariant(&*self);
        }
        let ghost before = self.candidates@;
        match self.state {
            SamplerState::Seeking { sample } => match event {
                SamplerEvent::SeekFailed => {
                    self.state = Sampler::past(sample);
                },
                SamplerEvent::SeekDone => {
                    self.state = SamplerState::Flushing { sample };
                },
                _ => {},
            },
            SamplerState::Flushing { sample } => match event {
                SamplerEvent::Flushed => {
                    self.state = SamplerState::Reading { sample, sent: 0 };
                },
                _ => {},
            },
            SamplerState::Reading { sample, sent } => match event {
                SamplerEvent::EndOfPackets => {
                    self.state = Sampler::past(sample);
                },
                SamplerEvent::Packet { stream } => {
                    if stream != self.info.video_stream {
                    } else if sent >= PACKET_BUDGET {
                        self.state = Sampler::past(sample);
                    } else {
                        self.state = SamplerState::Decoding { sample, sent: sent + 1 };
                    }
                },
                _ => {},
            },
            SamplerState::Decoding { sample, sent } => match event {
                SamplerEvent::NoFrame => {
                    self.state = SamplerState::Reading { sample, sent };
                },
                SamplerEvent::Frame { data, stride } => {
                    let size = self.info.geometry.output_dimensions();
                    match normalize(data.as_slice(), stride, size.0, size.1) {
                        Some(frame) => {
                            let candidate = Candidate::new(sample, frame);
                            self.state = Sampler::past(sample);
                            let mut candidates: Vec<Candidate> = Vec::new();
                            std::mem::swap(&mut candidates, &mut self.candidates);
                            candidates.push(candidate);
                            proof {
                                assert(candidates@.drop_last() =~= before);
                            }
                            self.candidates = candidates;
                        },
                        None => {
                            self.state = SamplerState::Reading { sample, sent };
                        },
                    }
                },
                _ => {},
            },
            SamplerState::Finished => {},
        }
    }

    /// Ends the sampling and hands back the thumbnail: the best of the
    /// frames that were decoded, with the video's metadata. Fails where no
    /// frame was decoded. Sample points that were not visited count as given
    /// up.
    pub fn finish(self) -> (result: Result<ExtractionResult, ExtractionError>)
        ensures
            self@.candidates.len() == 0 <==> result is Err,
            result matches Err(e) ==> e == ExtractionError::EmptyCandidateSet,
            result matches Ok(found) ==> is_first_best(
                self@.candidates,
                best_position(self@.candidates),
            ) && shows(found, self@.candidates[best_position(self@.candidates)], self@.info)
                && found.thumbnail.wf(),
    {
        proof {
            use_type_invariant(&self);
        }
        build_result(&self.candidates, &self.info)
    }
}

} // verus!
