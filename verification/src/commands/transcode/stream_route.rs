//! Where each input stream goes in the output.

use vstd::prelude::*;
use crate::media::timebase::Rational;

verus! {

/// What happens to one input stream.
#[derive(Debug, Clone, Copy, PartialEq, Eq, Structural)]
pub enum StreamRoute {
    /// The stream is left out of the output.
    Skip,
    /// The stream's packets are copied to output stream `output_stream_idx`.
    Copy { output_stream_idx: usize, input_stream_time_base: Rational },
    /// The stream is decoded and encoded again into output stream
    /// `output_stream_idx`.
    Transcode { output_stream_idx: usize },
}

/// The routes of all input streams, and the time bases of the output
/// streams once the output header is written.
#[derive(Debug)]
pub struct StreamRoutingCtx {
    pub routes: Vec<StreamRoute>,
    pub output_time_bases: Vec<Rational>,
}

impl StreamRoutingCtx {
    /// Every input stream starts out skipped; no output time base is known
    /// yet.
    pub fn new(n_input_streams: u32) -> (ctx: StreamRoutingCtx)
        ensures
            ctx.routes@.len() == n_input_streams,
            forall|i: int| 0 <= i < n_input_streams ==> #[trigger] ctx.routes@[i] == StreamRoute::Skip,
            ctx.output_time_bases@.len() == 0,
    {
        let mut routes: Vec<StreamRoute> = Vec::new();
        let mut i: u32 = 0;
        while i < n_input_streams
            invariant
                0 <= i <= n_input_streams,
                routes@.len() == i,
                forall|k: int| 0 <= k < i ==> #[trigger] routes@[k] == StreamRoute::Skip,
            decreases n_input_streams - i,
        {
            routes.push(StreamRoute::Skip);
            i = i + 1;
        }
        StreamRoutingCtx { routes, output_time_bases: Vec::new() }
    }
}

} // verus!
