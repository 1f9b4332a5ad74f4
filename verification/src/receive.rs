//! The receive flow's decisions.
//!
//! `ParseTicket -> Connecting -> FetchingMissing -> Exporting -> Done`, with
//! `Failed` reachable from every state. The host performs the outside work —
//! loading the local store, connecting, fetching, exporting, deleting the
//! scratch directory — and reports each outcome here; this module decides
//! what happens next, emits the progress events, and assembles the result.
//!
//! Resumability lives here: the scratch directory is named by the root
//! content hash, so a retried receive finds its earlier partial state, and a
//! receive that already holds everything never connects at all.

use vstd::prelude::*;
use crate::error::SendmeError;
use crate::export::Exporter;
use crate::hex::{hex_encode, lemma_hex_encode_shape, spec_hex_encode};
use crate::manifest::ContentManifest;
use crate::progress::{phase_monotone, ProgressInfo, ProgressOperation, ProgressStream};
use crate::text::{ascii_string, chars_of_bytes};
use crate::ticket::{spec_ticket_of_text, Ticket, TicketView};
use vstd::string::StringExecFns;
use vstd::string::StringSliceAdditionalSpecFns;

verus! {

/// Where the receive flow stands.
#[derive(Clone, Copy, Debug, PartialEq, Eq, Structural)]
pub enum ReceivePhase {
    /// Waiting to hear whether the local store already holds the content.
    AwaitLocal,
    /// Waiting for the connection attempt's outcome.
    Connecting,
    /// Waiting for the content's structural metadata (child sizes).
    Sizing,
    /// Waiting for fetch progress.
    Fetching,
    /// Waiting for the manifest to load from the now-complete store.
    Loading,
    /// The export pipeline is running.
    Exporting,
    /// Waiting for the scratch directory to be removed.
    Cleanup,
    /// The transfer succeeded.
    Done,
    /// The operation aborted.
    Failed,
}

/// What the host must do next.
#[derive(Clone, Copy, Debug, PartialEq, Eq, Structural)]
pub enum ReceiveAction {
    /// Connect to the peer, bounded by this many seconds.
    ConnectPeer { timeout_secs: u64 },
    /// Ask the peer for the ordered child sizes of the root.
    FetchSizes,
    /// Run the fetch of the locally missing content.
    FetchMissing,
    /// Load the manifest from the local store.
    LoadManifest,
}

/// What a completed receive reports.
#[derive(Debug, Clone)]
pub struct ReceiveResult {
    pub file_count: u64,
    pub size: u64,
    pub duration_ms: u64,
}

/// The sum of the sizes, clamped at the largest machine word.
pub open spec fn sat_sum(s: Seq<u64>) -> int
    decreases s.len(),
{
    if s.len() == 0 {
        0
    } else {
        let rest = sat_sum(s.drop_last());
        if rest + s.last() > u64::MAX {
            u64::MAX as int
        } else {
            rest + s.last()
        }
    }
}

/// The scratch directory of a receive, named by the root hash so a retry
/// finds its earlier partial state.
pub open spec fn recv_dir_chars(root: Seq<u8>) -> Seq<char> {
    ".sendme-recv-"@ + chars_of_bytes(spec_hex_encode(root))
}

/// How the connection attempt went.
#[derive(Debug)]
pub enum ConnectOutcome {
    Connected,
    TimedOut,
    Refused(String),
}

/// The fetch progress throttle: an event goes out only for an offset at
/// least a hundredth of the total past the last one emitted, or at
/// completion; an offset running backwards is dropped.
pub open spec fn should_emit(offset: u64, last: u64, total: u64) -> bool {
    offset >= last && (offset - last >= total / 100 || offset == total) && !(offset == last
        && offset < total)
}

/// One receive operation, from parsed ticket to result.
pub struct ReceiveFlow {
    ticket: Ticket,
    phase: ReceivePhase,
    total_bytes: u64,
    last_mark: u64,
    expected_files: u64,
    connect_hist: Ghost<Seq<ProgressInfo>>,
    download_hist: Ghost<Seq<ProgressInfo>>,
}

impl ReceiveFlow {
    pub closed spec fn phase(&self) -> ReceivePhase {
        self.phase
    }

    pub closed spec fn ticket_view(&self) -> TicketView {
        self.ticket@
    }

    /// The total the download phase reports against.
    pub closed spec fn total(&self) -> u64 {
        self.total_bytes
    }

    /// The last fetch offset whose event went out.
    pub closed spec fn mark(&self) -> u64 {
        self.last_mark
    }

    /// How many files the metadata announced.
    pub closed spec fn announced_files(&self) -> u64 {
        self.expected_files
    }

    /// The connect-phase events emitted so far, oldest first.
    pub closed spec fn connect_events(&self) -> Seq<ProgressInfo> {
        self.connect_hist@
    }

    /// The download-phase events emitted so far, oldest first.
    pub closed spec fn download_events(&self) -> Seq<ProgressInfo> {
        self.download_hist@
    }

    /// How far the connect phase has come, as its next event's position.
    pub closed spec fn connect_cursor(&self) -> int {
        match self.phase {
            ReceivePhase::AwaitLocal => 0,
            ReceivePhase::Connecting => 1,
            ReceivePhase::Sizing => 2,
            _ => 3,
        }
    }

    /// The flow's invariant: each phase's events never go backwards, stay
    /// within their totals, and never run ahead of the phase.
    pub closed spec fn wf(&self) -> bool {
        &&& crate::ticket::ticket_wf(self.ticket@)
        &&& self.last_mark <= self.total_bytes
        &&& forall|i: int|
            0 <= i < self.connect_hist@.len() ==> {
                &&& (#[trigger] self.connect_hist@[i]).operation is Connect
                &&& self.connect_hist@[i].total == 3
                &&& self.connect_hist@[i].current <= self.connect_cursor()
            }
        &&& forall|i: int, j: int|
            0 <= i <= j < self.connect_hist@.len() ==> #[trigger] self.connect_hist@[i].current
                <= #[trigger] self.connect_hist@[j].current
        &&& forall|i: int|
            0 <= i < self.download_hist@.len() ==> {
                &&& (#[trigger] self.download_hist@[i]).operation is Download
                &&& self.download_hist@[i].total == self.total_bytes
                &&& self.download_hist@[i].current <= self.last_mark
            }
        &&& forall|i: int, j: int|
            0 <= i <= j < self.download_hist@.len() ==> #[trigger] self.download_hist@[i].current
                <= #[trigger] self.download_hist@[j].current
    }

    /// Parse the ticket text and open the flow: hand back the flow and the
    /// scratch directory it works in, or `InvalidTicket` exactly when the
    /// text does not parse. Emits the first connect-phase event.
    pub fn begin(ticket_text: &str, tracker: &mut ProgressStream) -> (r: Result<
        (ReceiveFlow, String),
        SendmeError,
    >)
        ensures
            final(tracker).is_active() == old(tracker).is_active(),
            match r {
                Ok((flow, dir)) => {
                    &&& spec_ticket_of_text(ticket_text.spec_bytes()) == Some(flow.ticket_view())
                    &&& flow.wf()
                    &&& flow.phase() is AwaitLocal
                    &&& dir@ == recv_dir_chars(flow.ticket_view().root)
                    &&& flow.connect_events().len() == 1
                    &&& flow.connect_events()[0].current == 0
                    &&& flow.download_events().len() == 0
                    &&& final(tracker)@ == if old(tracker).is_active() {
                        old(tracker)@ + flow.connect_events()
                    } else {
                        old(tracker)@
                    }
                },
                Err(e) => {
                    &&& spec_ticket_of_text(ticket_text.spec_bytes()) is None
                    &&& e matches SendmeError::InvalidTicket { .. }
                    &&& final(tracker)@ == old(tracker)@
                },
            },
    {
        let ticket = match crate::ticket::parse_ticket(ticket_text) {
            Ok(t) => t,
            Err(e) => {
                return Err(e);
            },
        };
        let root_hex = hex_encode(ticket.root.as_bytes().as_slice());
        proof {
            lemma_hex_encode_shape(ticket.root@);
        }
        let hexs = ascii_string(root_hex);
        let mut dir = String::new();
        dir.append(".sendme-recv-");
        dir.append(hexs.as_str());
        let info = ProgressInfo {
            operation: ProgressOperation::Connect,
            current: 0,
            total: 3,
            message: "parsing ticket".to_owned(),
        };
        let ghost gi = info;
        let mut flow = ReceiveFlow {
            ticket,
            phase: ReceivePhase::AwaitLocal,
            total_bytes: 0,
            last_mark: 0,
            expected_files: 0,
            connect_hist: Ghost(Seq::empty()),
            download_hist: Ghost(Seq::empty()),
        };
        proof {
            flow.connect_hist@ = seq![gi];
        }
        tracker.emit(info);
        proof {
            assert(old(tracker)@ + flow.connect_hist@ =~= old(tracker)@.push(gi));
        }
        Ok((flow, dir))
    }

    /// The ticket the flow is serving: the host connects and fetches with
    /// its fields.
    pub fn ticket(&self) -> (r: &Ticket)
        ensures
            r@ == self.ticket_view(),
    {
        &self.ticket
    }

    /// Resumability: told whether the local store already holds the whole
    /// content, decide what happens next. Complete local content loads the
    /// manifest straight away — no connection, no fetch; anything missing
    /// demands a connection bounded by thirty seconds.
    pub fn on_local_status(&mut self, complete: bool, tracker: &mut ProgressStream) -> (r:
        ReceiveAction)
        requires
            old(self).wf(),
            old(self).phase() is AwaitLocal,
        ensures
            final(self).wf(),
            final(self).ticket_view() == old(self).ticket_view(),
            final(tracker).is_active() == old(tracker).is_active(),
            complete ==> {
                &&& r == ReceiveAction::LoadManifest
                &&& final(self).phase() is Loading
                &&& phase_monotone(final(self).connect_events())
            },
            !complete ==> {
                &&& r == (ReceiveAction::ConnectPeer { timeout_secs: 30 })
                &&& final(self).phase() is Connecting
            },
            final(self).download_events() == old(self).download_events(),
            final(self).connect_events() == old(self).connect_events() + final(self).connect_events().skip(old(self).connect_events().len() as int),
            final(tracker)@ == if old(tracker).is_active() {
                old(tracker)@ + final(self).connect_events().skip(
                    old(self).connect_events().len() as int,
                )
            } else {
                old(tracker)@
            },
    {
        let info = ProgressInfo {
            operation: ProgressOperation::Connect,
            current: 1,
            total: 3,
            message: "checking local content".to_owned(),
        };
        let ghost gi = info;
        if complete {
            let done = ProgressInfo {
                operation: ProgressOperation::Connect,
                current: 3,
                total: 3,
                message: "local content already complete".to_owned(),
            };
            let ghost gd = done;
            self.phase = ReceivePhase::Loading;
            proof {
                self.connect_hist@ = self.connect_hist@.push(gi).push(gd);
            }
            tracker.emit(info);
            tracker.emit(done);
            proof {
                let appended = seq![gi, gd];
                assert(final(self).connect_events().skip(old(self).connect_events().len() as int)
                    =~= appended);
                if old(tracker).is_active() {
                    assert(old(tracker)@.push(gi).push(gd) =~= old(tracker)@ + appended);
                }
            }
            ReceiveAction::LoadManifest
        } else {
            self.phase = ReceivePhase::Connecting;
            proof {
                self.connect_hist@ = self.connect_hist@.push(gi);
            }
            tracker.emit(info);
            proof {
                let appended = seq![gi];
                assert(final(self).connect_events().skip(old(self).connect_events().len() as int)
                    =~= appended);
                if old(tracker).is_active() {
                    assert(old(tracker)@.push(gi) =~= old(tracker)@ + appended);
                }
            }
            ReceiveAction::ConnectPeer { timeout_secs: 30 }
        }
    }

    /// The connection attempt's outcome. A timeout fails the operation with
    /// `ConnectionTimeout` — within the thirty-second bound, never later; any
    /// other failure carries its cause. A connection moves on to fetching
    /// the content's structural metadata.
    pub fn on_connect(&mut self, outcome: ConnectOutcome, tracker: &mut ProgressStream)
        -> (r: Result<ReceiveAction, SendmeError>)
        requires
            old(self).wf(),
            old(self).phase() is Connecting,
        ensures
            final(self).wf(),
            final(self).ticket_view() == old(self).ticket_view(),
            final(tracker).is_active() == old(tracker).is_active(),
            final(self).download_events() == old(self).download_events(),
            match outcome {
                ConnectOutcome::Connected => {
                    &&& r == Ok::<ReceiveAction, SendmeError>(ReceiveAction::FetchSizes)
                    &&& final(self).phase() is Sizing
                },
                ConnectOutcome::TimedOut => {
                    &&& final(self).phase() is Failed
                    &&& final(tracker)@ == old(tracker)@
                    &&& r == Err::<ReceiveAction, SendmeError>(SendmeError::ConnectionTimeout)
                },
                ConnectOutcome::Refused(c) => {
                    &&& final(self).phase() is Failed
                    &&& final(tracker)@ == old(tracker)@
                    &&& (r matches Err(e) && e matches SendmeError::ConnectionFailed {
                        cause: c2,
                    } && c2 == c)
                },
            },
            final(self).connect_events() == old(self).connect_events() + final(self).connect_events().skip(old(self).connect_events().len() as int),
            final(tracker)@ == if old(tracker).is_active() {
                old(tracker)@ + final(self).connect_events().skip(
                    old(self).connect_events().len() as int,
                )
            } else {
                old(tracker)@
            },
    {
        match outcome {
            ConnectOutcome::Connected => {
                let info = ProgressInfo {
                    operation: ProgressOperation::Connect,
                    current: 2,
                    total: 3,
                    message: "connected, fetching content info".to_owned(),
                };
                let ghost gi = info;
                self.phase = ReceivePhase::Sizing;
                proof {
                    self.connect_hist@ = self.connect_hist@.push(gi);
                }
                tracker.emit(info);
                proof {
                    let appended = seq![gi];
                    assert(final(self).connect_events().skip(
                        old(self).connect_events().len() as int,
                    ) =~= appended);
                    if old(tracker).is_active() {
                        assert(old(tracker)@.push(gi) =~= old(tracker)@ + appended);
                    }
                }
                Ok(ReceiveAction::FetchSizes)
            },
            ConnectOutcome::TimedOut => {
                self.phase = ReceivePhase::Failed;
                proof {
                    assert(final(self).connect_events().skip(
                        old(self).connect_events().len() as int,
                    ) =~= Seq::<ProgressInfo>::empty());
                    assert(old(tracker)@ + Seq::<ProgressInfo>::empty() =~= old(tracker)@);
                }
                Err(SendmeError::ConnectionTimeout)
            },
            ConnectOutcome::Refused(c) => {
                self.phase = ReceivePhase::Failed;
                proof {
                    assert(final(self).connect_events().skip(
                        old(self).connect_events().len() as int,
                    ) =~= Seq::<ProgressInfo>::empty());
                    assert(old(tracker)@ + Seq::<ProgressInfo>::empty() =~= old(tracker)@);
                }
                Err(SendmeError::ConnectionFailed { cause: c })
            },
        }
    }

    /// The content's structural metadata arrived: the ordered child sizes.
    /// Work out the transfer total and the file count, close the connect
    /// phase, open the download phase, and ask for the missing content.
    #[verifier::loop_isolation(false)]
    pub fn on_sizes(&mut self, sizes: &Vec<u64>, tracker: &mut ProgressStream) -> (r: ReceiveAction)
        requires
            old(self).wf(),
            old(self).phase() is Sizing,
        ensures
            final(self).wf(),
            final(self).ticket_view() == old(self).ticket_view(),
            final(tracker).is_active() == old(tracker).is_active(),
            r == ReceiveAction::FetchMissing,
            final(self).phase() is Fetching,
            final(self).total() == sat_sum(sizes@),
            final(self).mark() == 0,
            final(self).announced_files() == if sizes@.len() == 0 {
                0int
            } else {
                sizes@.len() - 1
            },
            phase_monotone(final(self).connect_events()),
            final(self).download_events().len() == 1,
            final(self).download_events()[0].current == 0,
            final(self).download_events()[0].total == final(self).total(),
            final(self).connect_events() == old(self).connect_events() + final(self).connect_events().skip(old(self).connect_events().len() as int),
            final(tracker)@ == if old(tracker).is_active() {
                old(tracker)@ + final(self).connect_events().skip(
                    old(self).connect_events().len() as int,
                ) + final(self).download_events()
            } else {
                old(tracker)@
            },
    {
        let mut total: u64 = 0;
        let mut i: usize = 0;
        while i < sizes.len()
            invariant
                i <= sizes@.len(),
                total == sat_sum(sizes@.take(i as int)),
            decreases sizes@.len() - i,
        {
            let x = sizes[i];
            proof {
                assert(sizes@.take(i + 1 as int).drop_last() =~= sizes@.take(i as int));
                assert(sizes@.take(i + 1 as int).last() == sizes@[i as int]);
            }
            if total > u64::MAX - x {
                total = u64::MAX;
            } else {
                total = total + x;
            }
            i += 1;
        }
        proof {
            assert(sizes@.take(sizes@.len() as int) =~= sizes@);
        }
        let files: u64 = if sizes.len() == 0 {
            0
        } else {
            (sizes.len() - 1) as u64
        };
        let closing = ProgressInfo {
            operation: ProgressOperation::Connect,
            current: 3,
            total: 3,
            message: "content info fetched".to_owned(),
        };
        let ghost gc = closing;
        let opening = ProgressInfo {
            operation: ProgressOperation::Download,
            current: 0,
            total,
            message: "starting download".to_owned(),
        };
        let ghost go = opening;
        self.phase = ReceivePhase::Fetching;
        self.total_bytes = total;
        self.last_mark = 0;
        self.expected_files = files;
        proof {
            self.connect_hist@ = self.connect_hist@.push(gc);
            self.download_hist@ = seq![go];
        }
        tracker.emit(closing);
        tracker.emit(opening);
        proof {
            let appended = seq![gc];
            assert(final(self).connect_events().skip(old(self).connect_events().len() as int)
                =~= appended);
            if old(tracker).is_active() {
                assert(old(tracker)@.push(gc).push(go) =~= old(tracker)@ + appended + seq![go]);
            }
        }
        ReceiveAction::FetchMissing
    }

    /// A fetch progress offset. An event goes out at most once per hundredth
    /// of the total — however fine the transport's chunks — and always at
    /// completion; an offset running backwards is ignored.
    pub fn on_fetch_progress(&mut self, offset: u64, tracker: &mut ProgressStream)
        requires
            old(self).wf(),
            old(self).phase() is Fetching,
        ensures
            final(self).wf(),
            final(self).ticket_view() == old(self).ticket_view(),
            final(self).phase() is Fetching,
            final(self).total() == old(self).total(),
            final(self).announced_files() == old(self).announced_files(),
            final(tracker).is_active() == old(tracker).is_active(),
            final(self).connect_events() == old(self).connect_events(),
            should_emit(offset, old(self).mark(), old(self).total()) && offset <= old(self).total()
                ==> {
                &&& final(self).mark() == offset
                &&& final(self).download_events() == old(self).download_events().push(
                    final(self).download_events().last(),
                )
                &&& final(self).download_events().last().operation is Download
                &&& final(self).download_events().last().current == offset
                &&& final(self).download_events().last().total == old(self).total()
                &&& final(tracker)@ == if old(tracker).is_active() {
                    old(tracker)@.push(final(self).download_events().last())
                } else {
                    old(tracker)@
                }
            },
            !(should_emit(offset, old(self).mark(), old(self).total()) && offset <= old(self).total()) ==> {
                &&& *final(self) == *old(self)
                &&& final(tracker)@ == old(tracker)@
            },
    {
        if offset > self.total_bytes || offset < self.last_mark {
            return ;
        }
        let step = self.total_bytes / 100;
        let gap = offset - self.last_mark;
        if (gap >= step || offset == self.total_bytes) && !(gap == 0 && offset < self.total_bytes) {
            let info = ProgressInfo {
                operation: ProgressOperation::Download,
                current: offset,
                total: self.total_bytes,
                message: "downloading".to_owned(),
            };
            let ghost gi = info;
            self.last_mark = offset;
            proof {
                self.download_hist@ = self.download_hist@.push(gi);
            }
            tracker.emit(info);
        }
    }

    /// The fetch stream completed: close the download phase. Its events,
    /// taken in order, never went backwards and end at the full total.
    pub fn on_fetch_done(&mut self, tracker: &mut ProgressStream) -> (r: ReceiveAction)
        requires
            old(self).wf(),
            old(self).phase() is Fetching,
        ensures
            final(self).wf(),
            final(self).ticket_view() == old(self).ticket_view(),
            final(self).phase() is Loading,
            final(tracker).is_active() == old(tracker).is_active(),
            r == ReceiveAction::LoadManifest,
            phase_monotone(final(self).download_events()),
            final(self).connect_events() == old(self).connect_events(),
            final(self).download_events() == old(self).download_events().push(
                final(self).download_events().last(),
            ),
            final(self).download_events().last().current == old(self).total(),
            final(self).download_events().last().total == old(self).total(),
            final(tracker)@ == if old(tracker).is_active() {
                old(tracker)@.push(final(self).download_events().last())
            } else {
                old(tracker)@
            },
    {
        let info = ProgressInfo {
            operation: ProgressOperation::Download,
            current: self.total_bytes,
            total: self.total_bytes,
            message: "download complete, exporting".to_owned(),
        };
        let ghost gi = info;
        self.phase = ReceivePhase::Loading;
        self.last_mark = self.total_bytes;
        proof {
            self.download_hist@ = self.download_hist@.push(gi);
        }
        tracker.emit(info);
        ReceiveAction::LoadManifest
    }

    /// The fetch stream reported an error: the operation fails with its
    /// cause.
    pub fn on_fetch_error(&mut self, cause: String) -> (r: SendmeError)
        requires
            old(self).wf(),
            old(self).phase() is Fetching,
        ensures
            final(self).wf(),
            final(self).phase() is Failed,
            r matches SendmeError::DownloadFailed { cause: c } && c == cause,
    {
        self.phase = ReceivePhase::Failed;
        SendmeError::DownloadFailed { cause }
    }

    /// The manifest loaded from the now-complete local store: hand back the
    /// export pipeline that materializes it.
    pub fn manifest_loaded(&mut self, manifest: ContentManifest) -> (r: Exporter)
        requires
            old(self).wf(),
            old(self).phase() is Loading,
            manifest.wf(),
            manifest@.len() <= u64::MAX,
        ensures
            final(self).wf(),
            final(self).ticket_view() == old(self).ticket_view(),
            final(self).phase() is Exporting,
            r.manifest_view() == manifest@,
            r.position() == 0,
            !r.entry_pending(),
    {
        self.phase = ReceivePhase::Exporting;
        Exporter::new(manifest)
    }

    /// The export pipeline finished every entry: all that is left is to
    /// remove the scratch directory.
    pub fn export_complete(&mut self) -> (r: ())
        requires
            old(self).wf(),
            old(self).phase() is Exporting,
        ensures
            final(self).wf(),
            final(self).ticket_view() == old(self).ticket_view(),
            final(self).phase() is Cleanup,
    {
        self.phase = ReceivePhase::Cleanup;
    }

    /// The scratch directory removal's outcome closes the operation: the
    /// result carries the exported file count, the local bytes of the
    /// content, and the measured duration; a failed removal fails the
    /// operation with `CleanupFailed`.
    pub fn on_cleanup(
        &mut self,
        outcome: Result<(), String>,
        file_count: u64,
        local_bytes: u64,
        duration_ms: u64,
    ) -> (r: Result<ReceiveResult, SendmeError>)
        requires
            old(self).wf(),
            old(self).phase() is Cleanup,
        ensures
            final(self).wf(),
            match outcome {
                Ok(_) => {
                    &&& final(self).phase() is Done
                    &&& (r matches Ok(res) && res.file_count == file_count && res.size
                        == local_bytes && res.duration_ms == duration_ms)
                },
                Err(cause) => {
                    &&& final(self).phase() is Failed
                    &&& (r matches Err(e) && e matches SendmeError::CleanupFailed { cause: c }
                        && c == cause)
                },
            },
    {
        match outcome {
            Ok(_) => {
                self.phase = ReceivePhase::Done;
                Ok(ReceiveResult { file_count, size: local_bytes, duration_ms })
            },
            Err(cause) => {
                self.phase = ReceivePhase::Failed;
                Err(SendmeError::CleanupFailed { cause })
            },
        }
    }
}

} // verus!
