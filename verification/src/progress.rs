//! Progress reporter: the structured events the core emits toward the
//! external observer, and the exact text of their status messages. Worker
//! identity 0 is reserved for job-wide aggregate status; `append` marks an
//! incremental fragment to concatenate onto the previous message of that
//! worker, rather than a replacement status line.

use vstd::prelude::*;

verus! {

/// One progress report. Transient: forwarded to the observer, never stored.
pub struct ProgressEvent {
    pub thread_id: usize,
    pub current: usize,
    pub total: usize,
    pub message: String,
    pub append: bool,
}

/// The decimal digit character for `d`.
pub open spec fn digit_char(d: int) -> char {
    if d == 0 {
        '0'
    } else if d == 1 {
        '1'
    } else if d == 2 {
        '2'
    } else if d == 3 {
        '3'
    } else if d == 4 {
        '4'
    } else if d == 5 {
        '5'
    } else if d == 6 {
        '6'
    } else if d == 7 {
        '7'
    } else if d == 8 {
        '8'
    } else {
        '9'
    }
}

/// The usual decimal rendering of a non-negative integer, no leading zeros.
pub open spec fn spec_digits(n: int) -> Seq<char>
    decreases n,
{
    if n < 10 {
        seq![digit_char(n)]
    } else {
        spec_digits(n / 10).push(digit_char(n % 10))
    }
}

fn digit_str(d: usize) -> (r: &'static str)
    requires
        d < 10,
    ensures
        r@ == seq![digit_char(d as int)],
{
    proof {
        reveal_strlit("0");
        reveal_strlit("1");
        reveal_strlit("2");
        reveal_strlit("3");
        reveal_strlit("4");
        reveal_strlit("5");
        reveal_strlit("6");
        reveal_strlit("7");
        reveal_strlit("8");
        reveal_strlit("9");
    }
    let r = match d {
        0 => "0",
        1 => "1",
        2 => "2",
        3 => "3",
        4 => "4",
        5 => "5",
        6 => "6",
        7 => "7",
        8 => "8",
        _ => "9",
    };
    proof {
        assert(r@ =~= seq![digit_char(d as int)]);
    }
    r
}

/// Renders `n` in decimal.
pub fn usize_to_string(n: usize) -> (r: String)
    ensures
        r@ == spec_digits(n as int),
    decreases n,
{
    if n < 10 {
        digit_str(n).to_owned()
    } else {
        let mut r = usize_to_string(n / 10);
        r.append(digit_str(n % 10));
        proof {
            assert(r@ =~= spec_digits(n as int / 10).push(digit_char(n as int % 10)));
        }
        r
    }
}

/// Aggregate status sent once before dispatch begins:
/// `Started. <total> Batches.`
pub fn started_event(total_batches: usize) -> (r: ProgressEvent)
    ensures
        r.thread_id == 0,
        r.current == 0,
        r.total == total_batches,
        r.append == false,
        r.message@ == "Started. "@ + spec_digits(total_batches as int) + " Batches."@,
{
    let mut message = String::new();
    message.append("Started. ");
    message.append(usize_to_string(total_batches).as_str());
    message.append(" Batches.");
    proof {
        assert(message@ =~= "Started. "@ + spec_digits(total_batches as int) + " Batches."@);
    }
    ProgressEvent { thread_id: 0, current: 0, total: total_batches, message, append: false }
}

/// Aggregate status sent after the barrier join on clean completion.
pub fn finished_event(total_batches: usize) -> (r: ProgressEvent)
    ensures
        r.thread_id == 0,
        r.current == total_batches,
        r.total == total_batches,
        r.append == false,
        r.message@ == "Finished."@,
{
    ProgressEvent {
        thread_id: 0,
        current: total_batches,
        total: total_batches,
        message: String::from_str("Finished."),
        append: false,
    }
}

/// Aggregate status sent when a stop request is accepted.
pub fn killed_event() -> (r: ProgressEvent)
    ensures
        r.thread_id == 0,
        r.current == 0,
        r.total == 0,
        r.append == false,
        r.message@ == "KILLED."@,
{
    ProgressEvent {
        thread_id: 0,
        current: 0,
        total: 0,
        message: String::from_str("KILLED."),
        append: false,
    }
}

/// Worker status when it picks up its batch: `Processing <start>-<end>`.
pub fn processing_event(thread_id: usize, batch_len: usize, start_id: &str, end_id: &str) -> (r:
    ProgressEvent)
    ensures
        r.thread_id == thread_id,
        r.current == 0,
        r.total == batch_len,
        r.append == false,
        r.message@ == "Processing "@ + start_id@ + "-"@ + end_id@,
{
    let mut message = String::new();
    message.append("Processing ");
    message.append(start_id);
    message.append("-");
    message.append(end_id);
    proof {
        assert(message@ =~= "Processing "@ + start_id@ + "-"@ + end_id@);
    }
    ProgressEvent { thread_id, current: 0, total: batch_len, message, append: false }
}

/// Worker status after its batch was merged.
pub fn batch_done_event(thread_id: usize, batch_len: usize) -> (r: ProgressEvent)
    ensures
        r.thread_id == thread_id,
        r.current == batch_len,
        r.total == batch_len,
        r.append == false,
        r.message@ == "Done."@,
{
    ProgressEvent {
        thread_id,
        current: batch_len,
        total: batch_len,
        message: String::from_str("Done."),
        append: false,
    }
}

/// Aggregate progress after one more batch finished:
/// `Progress: <finished>/<total> Batches`.
pub fn overall_progress_event(finished: usize, total_batches: usize) -> (r: ProgressEvent)
    ensures
        r.thread_id == 0,
        r.current == finished,
        r.total == total_batches,
        r.append == false,
        r.message@ == "Progress: "@ + spec_digits(finished as int) + "/"@ + spec_digits(
            total_batches as int,
        ) + " Batches"@,
{
    let mut message = String::new();
    message.append("Progress: ");
    message.append(usize_to_string(finished).as_str());
    message.append("/");
    message.append(usize_to_string(total_batches).as_str());
    message.append(" Batches");
    proof {
        assert(message@ =~= "Progress: "@ + spec_digits(finished as int) + "/"@ + spec_digits(
            total_batches as int,
        ) + " Batches"@);
    }
    ProgressEvent { thread_id: 0, current: finished, total: total_batches, message, append: false }
}

/// Worker error report with retry context: `Error: <err>. Retrying...`,
/// appended to the worker's previous message rather than replacing it.
pub fn retry_error_event(thread_id: usize, batch_len: usize, err: &str) -> (r: ProgressEvent)
    ensures
        r.thread_id == thread_id,
        r.current == 0,
        r.total == batch_len,
        r.append == true,
        r.message@ == "Error: "@ + err@ + ". Retrying..."@,
{
    let mut message = String::new();
    message.append("Error: ");
    message.append(err);
    message.append(". Retrying...");
    proof {
        assert(message@ =~= "Error: "@ + err@ + ". Retrying..."@);
    }
    ProgressEvent { thread_id, current: 0, total: batch_len, message, append: true }
}

/// One streamed fragment, forwarded as it arrives so partial output is
/// observable live; appended to the worker's previous message.
pub fn stream_fragment_event(thread_id: usize, batch_len: usize, fragment: String) -> (r:
    ProgressEvent)
    ensures
        r.thread_id == thread_id,
        r.current == 0,
        r.total == batch_len,
        r.append == true,
        r.message@ == fragment@,
{
    ProgressEvent { thread_id, current: 0, total: batch_len, message: fragment, append: true }
}

/// Worker note after a non-streaming response was decoded:
/// `Received <n> chars`, appended.
pub fn received_chars_event(thread_id: usize, batch_len: usize, n_chars: usize) -> (r:
    ProgressEvent)
    ensures
        r.thread_id == thread_id,
        r.current == 0,
        r.total == batch_len,
        r.append == true,
        r.message@ == "Received "@ + spec_digits(n_chars as int) + " chars"@,
{
    let mut message = String::new();
    message.append("Received ");
    message.append(usize_to_string(n_chars).as_str());
    message.append(" chars");
    proof {
        assert(message@ =~= "Received "@ + spec_digits(n_chars as int) + " chars"@);
    }
    ProgressEvent { thread_id, current: 0, total: batch_len, message, append: true }
}

/// One line of the per-run worker log: which ID range a dispatch unit took,
/// `Thread <id>: <start>-<end>`, newline-terminated.
pub fn thread_log_line(thread_id: usize, start_id: &str, end_id: &str) -> (r: String)
    ensures
        r@ == "Thread "@ + spec_digits(thread_id as int) + ": "@ + start_id@ + "-"@ + end_id@
            + "\n"@,
{
    let mut out = String::new();
    out.append("Thread ");
    out.append(usize_to_string(thread_id).as_str());
    out.append(": ");
    out.append(start_id);
    out.append("-");
    out.append(end_id);
    out.append("\n");
    proof {
        assert(out@ =~= "Thread "@ + spec_digits(thread_id as int) + ": "@ + start_id@ + "-"@
            + end_id@ + "\n"@);
    }
    out
}

} // verus!
