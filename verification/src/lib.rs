//! Core of a concurrent batch-translation engine: partitioning line-keyed
//! work into batches, pacing request dispatch, decoding chat-completion
//! responses, merging results into a shared ordered buffer, and cooperative
//! cancellation. I/O, HTTP transport and the user-interface shell live
//! outside this crate and call into it with plain values.

pub mod buffer;
pub mod client;
pub mod config;
pub mod job;
pub mod lines;
pub mod partition;
pub mod progress;
pub mod ratelimit;
pub mod state;
pub mod worker;

use vstd::prelude::*;

verus! {

/// Joins an application-root directory with a file name, inserting a `/`
/// separator unless the root already ends with one.
pub fn get_path(root: &str, filename: &str) -> (r: String)
    ensures
        r@ == if root@.len() > 0 && root@.last() == '/' {
            root@ + filename@
        } else {
            root@ + seq!['/'] + filename@
        },
{
    let n = root.unicode_len();
    let mut out = String::new();
    out.append(root);
    if n == 0 || root.get_char(n - 1) != '/' {
        out.append("/");
        proof {
            reveal_strlit("/");
            assert(out@ =~= root@ + seq!['/']);
        }
    }
    out.append(filename);
    out
}

} // verus!
