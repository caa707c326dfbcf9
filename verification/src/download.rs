//! The decisions of a download run: which URL to fetch next, which to skip,
//! and which lines of the URL file to remove afterwards. The caller performs
//! each download and reports its outcome.
use vstd::prelude::*;

use crate::text::{contains_str, contains_text};
use crate::urls::{extract_id, workshop_id};

verus! {

/// The word that `steamcmd` prints when a download succeeded: `"Success"`.
pub open spec fn success_marker() -> Seq<char> {
    seq!['S', 'u', 'c', 'c', 'e', 's', 's']
}

/// Whether a line of `steamcmd` output reports a successful download.
pub fn reports_success(line: &str) -> (r: bool)
    ensures
        r == contains_text(line@, success_marker()),
{
    proof {
        reveal_strlit("Success");
        assert("Success"@ =~= success_marker());
    }
    contains_str(line, "Success")
}

/// What the caller is to do next.
pub enum DownloadStep {
    /// The URL on line `line` names no item id: report it and go on.
    SkipEmpty { line: usize, url: String },
    /// Download the item with this id, then report the outcome.
    Fetch { id: String },
    /// Every URL has been handled.
    Finished,
}

/// How far a run has come.
#[derive(Clone, Copy)]
struct Progress {
    /// The line of the next URL to handle.
    next: usize,
    /// The download of the URL on line `next - 1` has been asked for and its
    /// outcome is not reported yet.
    awaiting: bool,
}

/// The state of a run over the URLs of the URL file, one URL per line.
pub struct DownloadRun {
    urls: Vec<String>,
    progress: Progress,
    succeeded: Vec<usize>,
}

impl DownloadRun {
    /// The URLs of the run.
    pub closed spec fn url_list(&self) -> Seq<Seq<char>> {
        self.urls.deep_view()
    }

    /// The line of the next URL to handle.
    pub closed spec fn position(&self) -> int {
        self.progress.next as int
    }

    /// The lines of the URLs whose download succeeded, in order.
    pub closed spec fn succeeded_lines(&self) -> Seq<usize> {
        self.succeeded@
    }

    /// The download of the URL on the line before `position()` has been
    /// asked for and its outcome is not reported yet.
    pub closed spec fn is_awaiting(&self) -> bool {
        self.progress.awaiting
    }

    /// The run is well formed: the position is within the URLs; a download
    /// awaiting its outcome is that of the URL before the position; and the
    /// succeeded lines increase strictly and lie before every line that is
    /// still to be reported.
    #[verifier::type_invariant]
    closed spec fn wf(&self) -> bool {
        let reported = self.progress.next - (if self.progress.awaiting {
            1int
        } else {
            0int
        });
        &&& self.progress.next <= self.urls@.len()
        &&& 0 <= reported
        &&& forall|i: int, j: int|
            0 <= i < j < self.succeeded@.len() ==> self.succeeded@[i] < self.succeeded@[j]
        &&& forall|i: int| 0 <= i < self.succeeded@.len() ==> self.succeeded@[i] < reported
    }

    /// A run over `urls` that has handled none of them.
    pub fn new(urls: Vec<String>) -> (r: DownloadRun)
        ensures
            r.url_list() == urls.deep_view(),
            r.position() == 0,
            r.succeeded_lines() == Seq::<usize>::empty(),
            !r.is_awaiting(),
    {
        DownloadRun {
            urls,
            progress: Progress { next: 0, awaiting: false },
            succeeded: Vec::new(),
        }
    }

    /// Whether a download has been asked for whose outcome is not reported.
    pub fn awaiting_result(&self) -> (r: bool)
        ensures
            r == self.is_awaiting(),
            0 <= self.position() <= self.url_list().len(),
            r ==> self.position() >= 1,
    {
        proof {
            use_type_invariant(self);
        }
        self.progress.awaiting
    }

    /// The lines of the URLs whose download succeeded, in order: they never
    /// repeat, they increase, and each is a line of the URL list.
    pub fn succeeded(&self) -> (r: Vec<usize>)
        ensures
            r@ == self.succeeded_lines(),
            forall|i: int, j: int| 0 <= i < j < r@.len() ==> r@[i] < r@[j],
            forall|i: int| 0 <= i < r@.len() ==> r@[i] < self.url_list().len(),
    {
        proof {
            use_type_invariant(self);
        }
        self.succeeded.clone()
    }

    /// Decides the next step: finished when every URL has been handled;
    /// otherwise the next URL is skipped when it names no item id and
    /// fetched when it does.
    pub fn next_step(&mut self) -> (r: DownloadStep)
        requires
            !old(self).is_awaiting(),
        ensures
            final(self).url_list() == old(self).url_list(),
            final(self).succeeded_lines() == old(self).succeeded_lines(),
            final(self).position() <= final(self).url_list().len(),
            old(self).position() >= old(self).url_list().len() ==> (r is Finished && *final(self)
                == *old(self)),
            old(self).position() < old(self).url_list().len() ==> ({
                let url = old(self).url_list()[old(self).position()];
                &&& final(self).position() == old(self).position() + 1
                &&& workshop_id(url).len() == 0 ==> (r matches DownloadStep::SkipEmpty {
                    line,
                    url: u,
                } && line == old(self).position() && u@ == url && !final(self).is_awaiting())
                &&& workshop_id(url).len() > 0 ==> (r matches DownloadStep::Fetch { id }
                    && id@ == workshop_id(url) && final(self).is_awaiting())
            }),
    {
        proof {
            use_type_invariant(&*self);
        }
        if self.progress.next >= self.urls.len() {
            return DownloadStep::Finished;
        }
        let i = self.progress.next;
        let url = &self.urls[i];
        assert(self.urls.deep_view()[i as int] == url@);
        let id = extract_id(url.as_str());
        let url_copy = url.clone();
        if id.as_str().unicode_len() == 0 {
            self.progress = Progress { next: i + 1, awaiting: false };
            DownloadStep::SkipEmpty { line: i, url: url_copy }
        } else {
            self.progress = Progress { next: i + 1, awaiting: true };
            DownloadStep::Fetch { id }
        }
    }

    /// Records the outcome of the download asked for last: when it
    /// succeeded, the line of its URL is added to the lines to remove from
    /// the URL file.
    pub fn record_download(&mut self, ok: bool)
        requires
            old(self).is_awaiting(),
        ensures
            !final(self).is_awaiting(),
            final(self).url_list() == old(self).url_list(),
            final(self).position() == old(self).position(),
            final(self).succeeded_lines() == if ok {
                old(self).succeeded_lines().push((old(self).position() - 1) as usize)
            } else {
                old(self).succeeded_lines()
            },
    {
        proof {
            use_type_invariant(&*self);
        }
        let p = self.progress;
        let line = p.next - 1;
        self.progress = Progress { next: p.next, awaiting: false };
        if ok {
            let mut succeeded: Vec<usize> = Vec::new();
            std::mem::swap(&mut succeeded, &mut self.succeeded);
            succeeded.push(line);
            self.succeeded = succeeded;
        }
    }
}

} // verus!
