//! The per-file tail state machine.
//!
//! A tail task owns one file's read offset, line counter and last-activity
//! time. The surrounding program runs the loop — open, seek to the remembered
//! offset, read up to the next line terminator — and hands what happened to
//! [`TailState::step`] as a [`TailEvent`]; `step` updates the state and says
//! what to do next: emit a line, sleep before polling again, or exit. The
//! offset only ever moves forward, so a file replaced at the same path is
//! read from the stale offset, never from the start again.

use vstd::prelude::*;

verus! {

/// A task exits after this long without new data (ten minutes).
pub const IDLE_TIMEOUT_MS: u64 = 600000;

/// How long to sleep before polling again when no new data arrived.
pub const POLL_INTERVAL_MS: u64 = 300;

/// Per-file tail state: owned by exactly one task.
pub struct TailState {
    /// The canonical path the task reads from.
    pub path: String,
    /// Where the next read starts; never decreases.
    pub byte_offset: u64,
    /// Lines emitted so far; the next line is number `line_number + 1`.
    pub line_number: u64,
    /// When data last arrived, in milliseconds of a monotonic clock.
    pub last_activity_ms: u64,
}

/// What one open-seek-read round of the surrounding loop observed.
pub enum TailEvent {
    /// The bytes of one line, up to and including its terminator if one was
    /// present (at end of stream there may be none).
    Data { bytes: Vec<u8>, now_ms: u64 },
    /// No bytes past the remembered offset.
    NoData { now_ms: u64 },
    /// A fatal open, seek or read error.
    Failure,
}

/// One emitted line.
pub struct OutputRecord {
    pub source_path: String,
    /// The number of this line: the first line a task emits is number 1.
    pub line_number: u64,
    /// The line, terminator stripped, decoded with invalid bytes replaced.
    pub text: String,
}

/// What the surrounding loop must do after a step.
pub enum TailAction {
    Emit { record: OutputRecord },
    Sleep,
    Exit,
}

/// `bytes` with one trailing line terminator removed: a final line feed
/// goes, and a carriage return directly before it goes with it.
pub open spec fn strip_eol(s: Seq<u8>) -> Seq<u8> {
    if s.len() > 0 && s.last() == 10 {
        let t = s.drop_last();
        if t.len() > 0 && t.last() == 13 {
            t.drop_last()
        } else {
            t
        }
    } else {
        s
    }
}

/// What decoding a byte sequence with replacement of invalid sequences
/// yields; the result depends on the bytes alone.
pub uninterp spec fn lossy_text_of(bytes: Seq<u8>) -> Seq<char>;

/// Relies on String::from_utf8_lossy: the decoding is a function of the
/// bytes alone, an empty input gives an empty string, and bytes that are all
/// ASCII decode to exactly those characters.
#[verifier::external_body]
fn decode_lossy(bytes: &Vec<u8>) -> (text: String)
    ensures
        text@ == lossy_text_of(bytes@),
        bytes@.len() == 0 ==> text@.len() == 0,
        (forall|i: int| 0 <= i < bytes@.len() ==> bytes@[i] < 128) ==> text@ == bytes@.map_values(
            |b: u8| b as char,
        ),
{
    String::from_utf8_lossy(bytes.as_slice()).into_owned()
}

/// Remove one trailing line terminator in place.
fn strip_line_terminator(bytes: &mut Vec<u8>)
    ensures
        final(bytes)@ == strip_eol(old(bytes)@),
{
    let n = bytes.len();
    if n > 0 && bytes[n - 1] == 10 {
        bytes.pop();
        proof {
            assert(bytes@ =~= old(bytes)@.drop_last());
        }
        let m = bytes.len();
        if m > 0 && bytes[m - 1] == 13 {
            let ghost mid = bytes@;
            bytes.pop();
            proof {
                assert(bytes@ =~= mid.drop_last());
            }
        }
    }
}

/// The state after one line of `bytes` arrived at `now_ms`.
pub open spec fn data_step(s: TailState, bytes: Seq<u8>, now_ms: u64) -> TailState {
    TailState {
        path: s.path,
        byte_offset: (s.byte_offset + bytes.len()) as u64,
        line_number: (s.line_number + 1) as u64,
        last_activity_ms: now_ms,
    }
}

impl TailState {
    /// A fresh task: nothing read yet, next line is number 1, the idle clock
    /// starts at `now_ms`.
    pub fn new(path: String, now_ms: u64) -> (s: Self)
        ensures
            s == (TailState { path, byte_offset: 0, line_number: 0, last_activity_ms: now_ms }),
    {
        TailState { path, byte_offset: 0, line_number: 0, last_activity_ms: now_ms }
    }

    /// Advance the state by one observation and say what to do next.
    ///
    /// Data advances the offset by the bytes consumed, numbers the line,
    /// restarts the idle clock, and emits the line with its terminator
    /// stripped. No data exits once the idle timeout is strictly exceeded
    /// and sleeps otherwise; a fatal error always exits. The clock is
    /// monotonic, and a file's offset and line count fit in 64 bits.
    pub fn step(&mut self, event: TailEvent) -> (action: TailAction)
        requires
            event matches TailEvent::Data { bytes, now_ms } ==> {
                &&& bytes@.len() > 0
                &&& old(self).byte_offset + bytes@.len() <= u64::MAX
                &&& old(self).line_number < u64::MAX
                &&& old(self).last_activity_ms <= now_ms
            },
            event matches TailEvent::NoData { now_ms } ==> old(self).last_activity_ms <= now_ms,
        ensures
            event matches TailEvent::Data { bytes, now_ms } ==> {
                &&& *final(self) == data_step(*old(self), bytes@, now_ms)
                &&& action matches TailAction::Emit { record }
                &&& record.source_path == old(self).path
                &&& record.line_number == old(self).line_number + 1
                &&& record.text@ == lossy_text_of(strip_eol(bytes@))
                &&& (forall|i: int|
                    0 <= i < strip_eol(bytes@).len() ==> strip_eol(bytes@)[i] < 128)
                    ==> record.text@ == strip_eol(bytes@).map_values(|b: u8| b as char)
            },
            event matches TailEvent::NoData { now_ms } ==> {
                &&& *final(self) == *old(self)
                &&& action == (if now_ms - old(self).last_activity_ms > IDLE_TIMEOUT_MS {
                    TailAction::Exit
                } else {
                    TailAction::Sleep
                })
            },
            event is Failure ==> *final(self) == *old(self) && action == TailAction::Exit,
    {
        match event {
            TailEvent::Data { mut bytes, now_ms } => {
                self.byte_offset = self.byte_offset + bytes.len() as u64;
                self.line_number = self.line_number + 1;
                self.last_activity_ms = now_ms;
                strip_line_terminator(&mut bytes);
                let text = decode_lossy(&bytes);
                TailAction::Emit {
                    record: OutputRecord {
                        source_path: self.path.clone(),
                        line_number: self.line_number,
                        text,
                    },
                }
            },
            TailEvent::NoData { now_ms } => {
                if now_ms - self.last_activity_ms > IDLE_TIMEOUT_MS {
                    TailAction::Exit
                } else {
                    TailAction::Sleep
                }
            },
            TailEvent::Failure => TailAction::Exit,
        }
    }
}

/// The records a task emits when the lines `items` (each a byte sequence
/// with its arrival time) arrive in order, starting from state `s`: each
/// record as its line number and its text.
pub open spec fn run_records(s: TailState, items: Seq<(Seq<u8>, u64)>) -> Seq<(int, Seq<char>)>
    decreases items.len(),
{
    if items.len() == 0 {
        Seq::empty()
    } else {
        let s1 = data_step(s, items[0].0, items[0].1);
        seq![(s1.line_number as int, lossy_text_of(strip_eol(items[0].0)))] + run_records(
            s1,
            items.drop_first(),
        )
    }
}

/// Law: when lines arrive in order, the emitted line numbers count up one by
/// one from the state's counter — from a fresh state they are exactly
/// 1, 2, …, n — and each emitted text is its line with the trailing
/// terminator stripped.
pub proof fn lemma_tail_emission(s: TailState, items: Seq<(Seq<u8>, u64)>)
    requires
        s.line_number + items.len() <= u64::MAX,
    ensures
        run_records(s, items).len() == items.len(),
        forall|i: int|
            0 <= i < items.len() ==> #[trigger] run_records(s, items)[i].0 == s.line_number + 1
                + i,
        forall|i: int|
            0 <= i < items.len() ==> #[trigger] run_records(s, items)[i].1 == lossy_text_of(
                strip_eol(items[i].0),
            ),
    decreases items.len(),
{
    if items.len() > 0 {
        let s1 = data_step(s, items[0].0, items[0].1);
        assert(s1.line_number == s.line_number + 1);
        lemma_tail_emission(s1, items.drop_first());
        assert forall|i: int| 0 <= i < items.len() implies #[trigger] run_records(s, items)[i].0
            == s.line_number + 1 + i && run_records(s, items)[i].1 == lossy_text_of(
            strip_eol(items[i].0),
        ) by {
            if i > 0 {
                assert(run_records(s, items)[i] == run_records(s1, items.drop_first())[i - 1]);
                assert(items.drop_first()[i - 1] == items[i]);
            }
        }
    }
}

} // verus!
