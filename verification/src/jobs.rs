//! The job registry of the server.

use vstd::prelude::*;
use vstd::string::StringExecFns;
#[allow(unused_imports)]
use vstd::utf8::encode_utf8;

use crate::http::{json_string, Reply};
#[allow(unused_imports)]
use crate::http::{json_quoted, ReplyView};
use crate::text::{
    chars_of, parse_number, push_decimal, rsplit_once, same_ignoring_case, strip_suffix,
};
#[allow(unused_imports)]
use crate::text::{
    decimal, last_at, last_halves, lemma_last_at, lowered, number, without_suffix,
};

verus! {

/// Jobs kept in the registry; the oldest finished ones are evicted past this.
pub const MAX_JOBS: usize = 32;

/// The codec runs at a fraction of a MiB/s and is memory hungry, so a handful of
/// concurrent jobs is already more than a desktop wants.
pub const MAX_RUNNING: usize = 2;

#[derive(Clone, Copy, Debug, PartialEq, Eq, Structural)]
pub enum State {
    Running,
    Done,
    Failed,
}

impl State {
    pub open spec fn name_spec(self) -> Seq<char> {
        match self {
            State::Running => "running"@,
            State::Done => "done"@,
            State::Failed => "failed"@,
        }
    }

    pub fn name(self) -> (s: &'static str)
        ensures
            s@ == self.name_spec(),
    {
        match self {
            State::Running => "running",
            State::Done => "done",
            State::Failed => "failed",
        }
    }
}

/// What a job does.
#[derive(Clone, Copy, Debug, PartialEq, Eq, Structural)]
pub enum Op {
    Compress,
    Decompress,
    Video,
    Convert,
    Download,
    DownloadCompress,
}

impl Op {
    pub open spec fn name_spec(self) -> Seq<char> {
        match self {
            Op::Compress => "compress"@,
            Op::Decompress => "decompress"@,
            Op::Video => "video"@,
            Op::Convert => "convert"@,
            Op::Download => "download"@,
            Op::DownloadCompress => "download-compress"@,
        }
    }

    pub fn name(self) -> (s: &'static str)
        ensures
            s@ == self.name_spec(),
    {
        match self {
            Op::Compress => "compress",
            Op::Decompress => "decompress",
            Op::Video => "video",
            Op::Convert => "convert",
            Op::Download => "download",
            Op::DownloadCompress => "download-compress",
        }
    }

    /// Jobs that ffmpeg runs count milliseconds of footage, because it reports
    /// its position in time and not in bytes.
    pub open spec fn counts_time(self) -> bool {
        self == Op::Video || self == Op::Convert
    }

    pub open spec fn unit_spec(self) -> Seq<char> {
        if self.counts_time() {
            "ms"@
        } else {
            "bytes"@
        }
    }

    /// What the progress of the job counts, so the page can format it.
    pub fn unit(self) -> (s: &'static str)
        ensures
            s@ == self.unit_spec(),
    {
        match self {
            Op::Video | Op::Convert => "ms",
            _ => "bytes",
        }
    }
}

pub struct Job {
    /// Jobs are numbered in the order in which they were accepted.
    pub id: u64,
    pub state: State,
    /// Progress counter and its target. A target of 0 means that it is not
    /// known.
    pub done: usize,
    pub total: usize,
    pub in_size: usize,
    pub out_size: usize,
    /// How long the job took in seconds, with three decimals.
    pub secs: String,
    pub op: Op,
    pub name: String,
    /// Extension of the produced file, for ffmpeg jobs only.
    pub out_ext: String,
    pub error: String,
    pub result: Vec<u8>,
}

/// A job, as contracts see it.
pub struct JobView {
    pub id: u64,
    pub state: State,
    pub done: usize,
    pub total: usize,
    pub in_size: usize,
    pub out_size: usize,
    pub secs: Seq<char>,
    pub op: Op,
    pub name: Seq<char>,
    pub out_ext: Seq<char>,
    pub error: Seq<char>,
    pub result: Seq<u8>,
}

impl View for Job {
    type V = JobView;

    open spec fn view(&self) -> JobView {
        JobView {
            id: self.id,
            state: self.state,
            done: self.done,
            total: self.total,
            in_size: self.in_size,
            out_size: self.out_size,
            secs: self.secs@,
            op: self.op,
            name: self.name@,
            out_ext: self.out_ext@,
            error: self.error@,
            result: self.result@,
        }
    }
}

impl JobView {
    /// A job as it starts. A job that counts footage does not know the duration
    /// yet, and a download does not know its size.
    pub open spec fn started(
        id: u64,
        op: Op,
        size: usize,
        name: Seq<char>,
        out_ext: Seq<char>,
    ) -> JobView {
        JobView {
            id,
            state: State::Running,
            done: 0,
            total: if op.counts_time() {
                0
            } else {
                size
            },
            in_size: size,
            out_size: 0,
            secs: "0.000"@,
            op,
            name,
            out_ext,
            error: ""@,
            result: Seq::empty(),
        }
    }

    /// A job that has ended well.
    pub open spec fn succeeded(self, out: Seq<u8>, secs: Seq<char>) -> JobView {
        JobView {
            done: self.total,
            out_size: out.len() as usize,
            secs,
            result: out,
            state: State::Done,
            ..self
        }
    }

    /// A job that has ended badly.
    pub open spec fn failed(self, error: Seq<char>) -> JobView {
        JobView { error, state: State::Failed, ..self }
    }

    /// The status of the job, as JSON.
    pub open spec fn status(self) -> Seq<char> {
        "{\"state\":"@ + json_quoted(self.state.name_spec()) + ",\"op\":"@ + json_quoted(
            self.op.name_spec(),
        ) + ",\"done\":"@ + decimal(self.done as nat) + ",\"total\":"@ + decimal(
            self.total as nat,
        ) + ",\"unit\":"@ + json_quoted(self.op.unit_spec()) + ",\"in_size\":"@ + decimal(
            self.in_size as nat,
        ) + ",\"out_size\":"@ + decimal(self.out_size as nat) + ",\"secs\":"@ + self.secs
            + ",\"name\":"@ + json_quoted(self.name) + ",\"error\":"@ + json_quoted(self.error)
            + "}"@
    }

    /// The name proposed to the browser.
    pub open spec fn file_name(self) -> Seq<char> {
        proposed_name(self.op, base_name(self.name), self.out_ext)
    }
}

/// What follows the last `/` or `\` of a path; a file name of our own if that
/// is nothing.
pub open spec fn base_name(path: Seq<char>) -> Seq<char> {
    let a = match last_halves(path, '/') {
        Some((_, rest)) => rest,
        None => path,
    };
    let b = match last_halves(a, '\\') {
        Some((_, rest)) => rest,
        None => a,
    };
    if b.len() == 0 {
        "fichier"@
    } else {
        b
    }
}

/// The name and the extension of a file.
pub open spec fn stem_and_ext(base: Seq<char>) -> (Seq<char>, Seq<char>) {
    match last_halves(base, '.') {
        Some((stem, ext)) => (stem, ext),
        None => (base, ""@),
    }
}

/// The name of the result of `op` on a file called `base`: `.cpt` appended when
/// compressing, stripped when decompressing, and a `-reencode` suffix on a
/// re-encoded video so it never lands on top of the original. Converting to the
/// extension the file already has would otherwise propose the original name and
/// quietly overwrite it.
pub open spec fn proposed_name(op: Op, base: Seq<char>, out_ext: Seq<char>) -> Seq<char> {
    let (stem, ext) = stem_and_ext(base);
    match op {
        Op::Compress | Op::DownloadCompress => base + ".cpt"@,
        Op::Download => base,
        Op::Video => stem + "-reencode."@ + out_ext,
        Op::Convert => if lowered(ext) == lowered(out_ext) {
            stem + "-converti."@ + out_ext
        } else {
            stem + "."@ + out_ext
        },
        Op::Decompress => match without_suffix(base, ".cpt"@) {
            Some(s) => s,
            None => base,
        },
    }
}

/// A re-encode, a conversion and a compression never propose the name of the
/// file they were given.
pub proof fn law_original_is_spared(op: Op, base: Seq<char>, out_ext: Seq<char>)
    requires
        op == Op::Video || op == Op::Convert || op == Op::Compress,
    ensures
        proposed_name(op, base, out_ext) != base,
{
    reveal_strlit(".cpt");
    reveal_strlit("-reencode.");
    reveal_strlit("-converti.");
    reveal_strlit(".");
    reveal_strlit("");
    lemma_last_at(base, '.', base.len() as int);
    let i = last_at(base, '.', base.len() as int);
    let (stem, ext) = stem_and_ext(base);
    let name = proposed_name(op, base, out_ext);
    if op == Op::Compress {
        assert(name.len() == base.len() + 4);
    } else if i < 0 {
        assert(name.len() > base.len());
    } else {
        assert(base[stem.len() as int] == '.');
        if op == Op::Video || lowered(ext) == lowered(out_ext) {
            assert(name[stem.len() as int] == '-');
        } else {
            assert(name.skip(stem.len() as int + 1) =~= out_ext);
            assert(base.skip(i + 1) == ext);
        }
    }
}

/// Stripping `.cpt` undoes appending it.
pub proof fn law_names_round_trip(base: Seq<char>, ext: Seq<char>)
    ensures
        proposed_name(Op::Decompress, proposed_name(Op::Compress, base, ext), ext) == base,
{
    reveal_strlit(".cpt");
    let packed = base + ".cpt"@;
    assert(packed.subrange(packed.len() - 4, packed.len() as int) =~= ".cpt"@);
    assert(packed.take(packed.len() - 4) =~= base);
}

/// `name` without what would end it in a header: quotes, backslashes and line
/// ends.
pub open spec fn header_safe(name: Seq<char>) -> Seq<char> {
    Seq::new(
        name.len(),
        |i: int|
            if name[i] == '"' || name[i] == '\\' || name[i] == '\r' || name[i] == '\n' {
                '_'
            } else {
                name[i]
            },
    )
}

/// No file name can end the header it stands in.
pub proof fn law_header_is_closed(name: Seq<char>, i: int)
    requires
        0 <= i < name.len(),
    ensures
        header_safe(name).len() == name.len(),
        header_safe(name)[i] != '"',
        header_safe(name)[i] != '\\',
        header_safe(name)[i] != '\r',
        header_safe(name)[i] != '\n',
{
}

/// `name` without what would end it in a header.
pub fn safe_for_header(name: &str) -> (s: String)
    ensures
        s@ == header_safe(name@),
{
    let v = chars_of(name);
    let mut s = String::new();
    let mut i: usize = 0;
    while i < v.len()
        invariant
            i <= v@.len(),
            v@ == name@,
            s@.len() == i,
            forall|j: int| 0 <= j < i ==> #[trigger] s@[j] == header_safe(name@)[j],
        decreases v@.len() - i,
    {
        let c: char = v[i];
        s.push(if c == '"' || c == '\\' || c == '\r' || c == '\n' {
            '_'
        } else {
            c
        });
        i = i + 1;
    }
    assert(s@ =~= header_safe(name@));
    s
}

/// What follows the last `/` or `\` of a path.
pub fn base_of(path: &str) -> (s: String)
    ensures
        s@ == base_name(path@),
{
    let a = match rsplit_once(path, '/') {
        Some((_, rest)) => rest,
        None => path.to_string(),
    };
    let b = match rsplit_once(a.as_str(), '\\') {
        Some((_, rest)) => rest,
        None => a,
    };
    if b.as_str().is_empty() {
        "fichier".to_string()
    } else {
        b
    }
}

/// The name of the result of `op` on a file called `base`.
pub fn propose_name(op: Op, base: &str, out_ext: &str) -> (s: String)
    ensures
        s@ == proposed_name(op, base@, out_ext@),
{
    let (stem, ext) = match rsplit_once(base, '.') {
        Some(p) => p,
        None => (base.to_string(), "".to_string()),
    };
    match op {
        Op::Compress | Op::DownloadCompress => {
            let mut s = base.to_string();
            s.append(".cpt");
            s
        },
        Op::Download => base.to_string(),
        Op::Video => {
            let mut s = stem;
            s.append("-reencode.");
            s.append(out_ext);
            s
        },
        Op::Convert => {
            let mut s = stem;
            if same_ignoring_case(ext.as_str(), out_ext) {
                s.append("-converti.");
            } else {
                s.append(".");
            }
            s.append(out_ext);
            s
        },
        Op::Decompress => match strip_suffix(base, ".cpt") {
            Some(s) => s,
            None => base.to_string(),
        },
    }
}

impl Job {
    /// The status of the job, as JSON.
    pub fn status_json(&self) -> (s: String)
        ensures
            s@ == self@.status(),
    {
        let mut s = "{\"state\":".to_string();
        s.append(json_string(self.state.name()).as_str());
        s.append(",\"op\":");
        s.append(json_string(self.op.name()).as_str());
        s.append(",\"done\":");
        push_decimal(&mut s, self.done as u64);
        s.append(",\"total\":");
        push_decimal(&mut s, self.total as u64);
        s.append(",\"unit\":");
        s.append(json_string(self.op.unit()).as_str());
        s.append(",\"in_size\":");
        push_decimal(&mut s, self.in_size as u64);
        s.append(",\"out_size\":");
        push_decimal(&mut s, self.out_size as u64);
        s.append(",\"secs\":");
        s.append(self.secs.as_str());
        s.append(",\"name\":");
        s.append(json_string(self.name.as_str()).as_str());
        s.append(",\"error\":");
        s.append(json_string(self.error.as_str()).as_str());
        s.append("}");
        s
    }
}

/// Name proposed to the browser.
pub fn download_name(j: &Job) -> (s: String)
    ensures
        s@ == j@.file_name(),
{
    propose_name(j.op, base_of(j.name.as_str()).as_str(), j.out_ext.as_str())
}

/// A list of jobs, as contracts see it.
pub open spec fn jobs_of(list: Seq<Job>) -> Seq<JobView> {
    Seq::new(list.len(), |i: int| list[i]@)
}

/// How many of `jobs` are running.
pub open spec fn count_running(jobs: Seq<JobView>) -> nat
    decreases jobs.len(),
{
    if jobs.len() == 0 {
        0
    } else {
        count_running(jobs.drop_last()) + (if jobs.last().state == State::Running {
            1nat
        } else {
            0
        })
    }
}

/// The first of `jobs` from `i` on that is not running; their number if all
/// are.
pub open spec fn first_finished(jobs: Seq<JobView>, i: int) -> int
    decreases jobs.len() - i,
{
    if i >= jobs.len() {
        jobs.len() as int
    } else if jobs[i].state != State::Running {
        i
    } else {
        first_finished(jobs, i + 1)
    }
}

/// `jobs` once finished ones have been dropped, oldest first, to make room.
pub open spec fn evicted(jobs: Seq<JobView>) -> Seq<JobView>
    decreases jobs.len(),
{
    let i = first_finished(jobs, 0);
    if jobs.len() < MAX_JOBS || !(0 <= i < jobs.len()) {
        jobs
    } else {
        evicted(jobs.remove(i))
    }
}

/// The place of job `id` in `jobs` from `i` on; their number if it is not
/// there.
pub open spec fn place_of(jobs: Seq<JobView>, id: u64, i: int) -> int
    decreases jobs.len() - i,
{
    if i >= jobs.len() {
        jobs.len() as int
    } else if jobs[i].id == id {
        i
    } else {
        place_of(jobs, id, i + 1)
    }
}

/// The registry, as contracts see it: the jobs, oldest first, the number of the
/// next one, and how many are at work.
#[verifier::ext_equal]
pub struct RegistryView {
    pub jobs: Seq<JobView>,
    pub next_id: u64,
    pub running: nat,
}

impl RegistryView {
    pub open spec fn valid(self) -> bool {
        &&& forall|i: int, j: int|
            0 <= i < j < self.jobs.len() ==> (#[trigger] self.jobs[i]).id < (
            #[trigger] self.jobs[j]).id
        &&& forall|i: int| 0 <= i < self.jobs.len() ==> (#[trigger] self.jobs[i]).id < self.next_id
        &&& count_running(self.jobs) <= self.running <= MAX_RUNNING
        &&& self.jobs.len() <= MAX_JOBS
    }

    /// The job with number `id`.
    pub open spec fn find(self, id: u64) -> Option<JobView> {
        let i = place_of(self.jobs, id, 0);
        if 0 <= i < self.jobs.len() {
            Some(self.jobs[i])
        } else {
            None
        }
    }

    /// The registry with job `id` changed by `f`; as it is if there is no such
    /// job.
    pub open spec fn with(self, id: u64, f: spec_fn(JobView) -> JobView) -> RegistryView {
        let i = place_of(self.jobs, id, 0);
        if 0 <= i < self.jobs.len() {
            RegistryView { jobs: self.jobs.update(i, f(self.jobs[i])), ..self }
        } else {
            self
        }
    }

    /// The registry with a new job.
    pub open spec fn with_started(
        self,
        op: Op,
        size: usize,
        name: Seq<char>,
        out_ext: Seq<char>,
    ) -> RegistryView {
        RegistryView {
            jobs: evicted(self.jobs).push(
                JobView::started(self.next_id, op, size, name, out_ext),
            ),
            next_id: (self.next_id + 1) as u64,
            running: self.running + 1,
        }
    }
}

/// Changing one job changes the count by that job.
proof fn lemma_count_update(jobs: Seq<JobView>, i: int, j: JobView)
    requires
        0 <= i < jobs.len(),
    ensures
        count_running(jobs.update(i, j)) + (if jobs[i].state == State::Running {
            1nat
        } else {
            0
        }) == count_running(jobs) + (if j.state == State::Running {
            1nat
        } else {
            0
        }),
    decreases jobs.len(),
{
    if i == jobs.len() - 1 {
        assert(jobs.update(i, j).drop_last() =~= jobs.drop_last());
    } else {
        assert(jobs.update(i, j).drop_last() =~= jobs.drop_last().update(i, j));
        lemma_count_update(jobs.drop_last(), i, j);
    }
}

/// Dropping a job that is not running leaves the count.
proof fn lemma_count_remove(jobs: Seq<JobView>, i: int)
    requires
        0 <= i < jobs.len(),
        jobs[i].state != State::Running,
    ensures
        count_running(jobs.remove(i)) == count_running(jobs),
    decreases jobs.len(),
{
    if i == jobs.len() - 1 {
        assert(jobs.remove(i) =~= jobs.drop_last());
    } else {
        assert(jobs.remove(i).drop_last() =~= jobs.drop_last().remove(i));
        assert(jobs.remove(i).last() == jobs.last());
        lemma_count_remove(jobs.drop_last(), i);
    }
}

proof fn lemma_first_finished(jobs: Seq<JobView>, i: int)
    requires
        0 <= i <= jobs.len(),
    ensures
        i <= first_finished(jobs, i) <= jobs.len(),
        first_finished(jobs, i) < jobs.len() ==> jobs[first_finished(jobs, i)].state
            != State::Running,
        forall|k: int|
            i <= k < first_finished(jobs, i) ==> (#[trigger] jobs[k]).state == State::Running,
    decreases jobs.len() - i,
{
    if i < jobs.len() && jobs[i].state == State::Running {
        lemma_first_finished(jobs, i + 1);
    }
}

/// Where all jobs are running, the count is their number.
proof fn lemma_count_all(jobs: Seq<JobView>)
    requires
        forall|k: int| 0 <= k < jobs.len() ==> (#[trigger] jobs[k]).state == State::Running,
    ensures
        count_running(jobs) == jobs.len(),
    decreases jobs.len(),
{
    if jobs.len() > 0 {
        assert(jobs.last().state == State::Running);
        assert forall|k: int| 0 <= k < jobs.drop_last().len() implies (
        #[trigger] jobs.drop_last()[k]).state == State::Running by {
            assert(jobs[k].state == State::Running);
        }
        lemma_count_all(jobs.drop_last());
    }
}

/// Dropping a job that is not running leaves a valid registry.
proof fn lemma_removed_valid(r: RegistryView, i: int)
    requires
        r.valid(),
        0 <= i < r.jobs.len(),
        r.jobs[i].state != State::Running,
    ensures
        (RegistryView { jobs: r.jobs.remove(i), ..r }).valid(),
{
    let rest = r.jobs.remove(i);
    lemma_count_remove(r.jobs, i);
    assert forall|a: int| 0 <= a < rest.len() implies #[trigger] rest[a] == r.jobs[if a < i {
        a
    } else {
        a + 1
    }] by {}
}

/// Eviction leaves a valid registry with room in it.
proof fn lemma_evicted_valid(r: RegistryView)
    requires
        r.valid(),
    ensures
        evicted(r.jobs).len() < MAX_JOBS,
        (RegistryView { jobs: evicted(r.jobs), ..r }).valid(),
        count_running(evicted(r.jobs)) == count_running(r.jobs),
    decreases r.jobs.len(),
{
    let i = first_finished(r.jobs, 0);
    lemma_first_finished(r.jobs, 0);
    if r.jobs.len() < MAX_JOBS {
    } else if i >= r.jobs.len() {
        lemma_count_all(r.jobs);
    } else {
        lemma_removed_valid(r, i);
        lemma_count_remove(r.jobs, i);
        lemma_evicted_valid(RegistryView { jobs: r.jobs.remove(i), ..r });
    }
}

/// Eviction keeps a running job.
proof fn lemma_running_stays(jobs: Seq<JobView>, a: int)
    requires
        0 <= a < jobs.len(),
        jobs[a].state == State::Running,
    ensures
        evicted(jobs).contains(jobs[a]),
    decreases jobs.len(),
{
    let i = first_finished(jobs, 0);
    lemma_first_finished(jobs, 0);
    if jobs.len() < MAX_JOBS || i >= jobs.len() {
        assert(evicted(jobs)[a] == jobs[a]);
    } else {
        let b = if a < i {
            a
        } else {
            a - 1
        };
        assert(jobs.remove(i)[b] == jobs[a]);
        lemma_running_stays(jobs.remove(i), b);
    }
}

/// A job that eviction drops is older than a finished one that it keeps.
proof fn lemma_dropped_is_older(r: RegistryView, a: int, k: int)
    requires
        r.valid(),
        0 <= a < r.jobs.len(),
        !evicted(r.jobs).contains(r.jobs[a]),
        0 <= k < evicted(r.jobs).len(),
        evicted(r.jobs)[k].state != State::Running,
    ensures
        r.jobs[a].id < evicted(r.jobs)[k].id,
    decreases r.jobs.len(),
{
    let i = first_finished(r.jobs, 0);
    lemma_first_finished(r.jobs, 0);
    if r.jobs.len() < MAX_JOBS || i >= r.jobs.len() {
        assert(evicted(r.jobs)[a] == r.jobs[a]);
    } else {
        let rest = r.jobs.remove(i);
        lemma_removed_valid(r, i);
        if a == i {
            lemma_evicted_subset(rest, k);
            let m = choose|m: int| 0 <= m < rest.len() && rest[m] == evicted(rest)[k];
            if m < i {
                assert(rest[m] == r.jobs[m]);
                assert(r.jobs[m].state == State::Running);
            } else {
                assert(rest[m] == r.jobs[m + 1]);
                assert(r.jobs[i].id < r.jobs[m + 1].id);
            }
        } else {
            let b = if a < i {
                a
            } else {
                a - 1
            };
            assert(rest[b] == r.jobs[a]);
            lemma_dropped_is_older(RegistryView { jobs: rest, ..r }, b, k);
        }
    }
}

/// Eviction makes room and drops finished jobs only, the oldest first: every
/// job that is gone is older than every finished job that stays.
pub proof fn law_eviction(r: RegistryView)
    requires
        r.valid(),
    ensures
        evicted(r.jobs).len() < MAX_JOBS,
        (RegistryView { jobs: evicted(r.jobs), ..r }).valid(),
        count_running(evicted(r.jobs)) == count_running(r.jobs),
        forall|i: int|
            0 <= i < r.jobs.len() && (#[trigger] r.jobs[i]).state == State::Running ==> evicted(
                r.jobs,
            ).contains(r.jobs[i]),
        forall|i: int, k: int|
            0 <= i < r.jobs.len() && !evicted(r.jobs).contains(#[trigger] r.jobs[i]) && 0 <= k
                < evicted(r.jobs).len() && (#[trigger] evicted(r.jobs)[k]).state != State::Running
                ==> r.jobs[i].id < evicted(r.jobs)[k].id,
        r.jobs.len() < MAX_JOBS ==> evicted(r.jobs) == r.jobs,
{
    lemma_evicted_valid(r);
    assert forall|i: int|
        0 <= i < r.jobs.len() && (#[trigger] r.jobs[i]).state == State::Running implies evicted(
        r.jobs,
    ).contains(r.jobs[i]) by {
        lemma_running_stays(r.jobs, i);
    }
    assert forall|i: int, k: int|
        0 <= i < r.jobs.len() && !evicted(r.jobs).contains(#[trigger] r.jobs[i]) && 0 <= k
            < evicted(r.jobs).len() && (#[trigger] evicted(r.jobs)[k]).state
            != State::Running implies r.jobs[i].id < evicted(r.jobs)[k].id by {
        lemma_dropped_is_older(r, i, k);
    }
}

/// What eviction keeps was there before.
proof fn lemma_evicted_subset(jobs: Seq<JobView>, k: int)
    requires
        0 <= k < evicted(jobs).len(),
    ensures
        exists|m: int| 0 <= m < jobs.len() && jobs[m] == evicted(jobs)[k],
    decreases jobs.len(),
{
    let i = first_finished(jobs, 0);
    if jobs.len() < MAX_JOBS || !(0 <= i < jobs.len()) {
        assert(jobs[k] == evicted(jobs)[k]);
    } else {
        let rest = jobs.remove(i);
        lemma_evicted_subset(rest, k);
        let m = choose|m: int| 0 <= m < rest.len() && rest[m] == evicted(rest)[k];
        let x = if m < i {
            m
        } else {
            m + 1
        };
        assert(jobs[x] == rest[m]);
    }
}

proof fn lemma_place_of(jobs: Seq<JobView>, id: u64, i: int)
    requires
        0 <= i <= jobs.len(),
    ensures
        i <= place_of(jobs, id, i) <= jobs.len(),
        place_of(jobs, id, i) < jobs.len() ==> jobs[place_of(jobs, id, i)].id == id,
        forall|k: int| i <= k < place_of(jobs, id, i) ==> (#[trigger] jobs[k]).id != id,
    decreases jobs.len() - i,
{
    if i < jobs.len() && jobs[i].id != id {
        lemma_place_of(jobs, id, i + 1);
    }
}

/// Starting a job leaves the registry valid, with every running job still in
/// it, and the new job found under its number.
pub proof fn law_start(r: RegistryView, op: Op, size: usize, name: Seq<char>, out_ext: Seq<char>)
    requires
        r.valid(),
        r.running < MAX_RUNNING,
        r.next_id < u64::MAX,
    ensures
        r.with_started(op, size, name, out_ext).valid(),
        r.with_started(op, size, name, out_ext).find(r.next_id) == Some(
            JobView::started(r.next_id, op, size, name, out_ext),
        ),
        forall|i: int|
            0 <= i < r.jobs.len() && (#[trigger] r.jobs[i]).state == State::Running
                ==> r.with_started(op, size, name, out_ext).jobs.contains(r.jobs[i]),
{
    law_eviction(r);
    let kept = evicted(r.jobs);
    let new = JobView::started(r.next_id, op, size, name, out_ext);
    let s = r.with_started(op, size, name, out_ext);
    assert(s.jobs.drop_last() =~= kept);
    lemma_place_of(s.jobs, r.next_id, 0);
    assert(s.jobs[kept.len() as int] == new);
    assert forall|i: int| 0 <= i < kept.len() implies (#[trigger] s.jobs[i]).id < r.next_id by {
        assert((RegistryView { jobs: kept, ..r }).jobs[i].id < r.next_id);
    }
    assert forall|i: int, j: int| 0 <= i < j < s.jobs.len() implies (#[trigger] s.jobs[i]).id < (
    #[trigger] s.jobs[j]).id by {
        if j < kept.len() {
            let v = RegistryView { jobs: kept, ..r };
            assert(v.jobs[i].id < v.jobs[j].id);
        }
    }
    assert forall|i: int|
        0 <= i < r.jobs.len() && (#[trigger] r.jobs[i]).state
            == State::Running implies s.jobs.contains(r.jobs[i]) by {
        let k = choose|k: int| 0 <= k < kept.len() && kept[k] == r.jobs[i];
        assert(s.jobs[k] == r.jobs[i]);
    }
}

/// A change that keeps the number and the state of a job keeps the registry
/// valid.
proof fn lemma_with_valid(r: RegistryView, id: u64, f: spec_fn(JobView) -> JobView)
    requires
        r.valid(),
        forall|j: JobView| (#[trigger] f(j)).id == j.id,
        forall|j: JobView|
            (#[trigger] f(j)).state == State::Running ==> j.state == State::Running,
    ensures
        r.with(id, f).valid(),
{
    lemma_place_of(r.jobs, id, 0);
    let i = place_of(r.jobs, id, 0);
    if i < r.jobs.len() {
        lemma_count_update(r.jobs, i, f(r.jobs[i]));
        let s = r.with(id, f);
        assert forall|a: int, b: int| 0 <= a < b < s.jobs.len() implies (#[trigger] s.jobs[a]).id
            < (#[trigger] s.jobs[b]).id by {
            assert(s.jobs[a].id == r.jobs[a].id && s.jobs[b].id == r.jobs[b].id);
        }
        assert forall|a: int| 0 <= a < s.jobs.len() implies (#[trigger] s.jobs[a]).id
            < s.next_id by {
            assert(s.jobs[a].id == r.jobs[a].id);
        }
    }
}

/// The jobs of the server.
pub struct Registry {
    jobs: Vec<Job>,
    next_id: u64,
    running: usize,
}

impl View for Registry {
    type V = RegistryView;

    closed spec fn view(&self) -> RegistryView {
        RegistryView {
            jobs: jobs_of(self.jobs@),
            next_id: self.next_id,
            running: self.running as nat,
        }
    }
}

impl Registry {
    pub fn new() -> (r: Self)
        ensures
            r@ == (RegistryView { jobs: Seq::empty(), next_id: 1, running: 0 }),
            r@.valid(),
    {
        let r = Registry { jobs: Vec::new(), next_id: 1, running: 0 };
        assert(r@ =~= RegistryView { jobs: Seq::empty(), next_id: 1, running: 0 });
        r
    }

    /// Drop finished jobs, oldest first, once the registry is full. Running jobs
    /// are never evicted.
    fn evict(&mut self)
        requires
            old(self)@.valid(),
        ensures
            final(self)@ == (RegistryView { jobs: evicted(old(self)@.jobs), ..old(self)@ }),
    {
        while self.jobs.len() >= MAX_JOBS
            invariant
                evicted(self@.jobs) == evicted(old(self)@.jobs),
                self@.next_id == old(self)@.next_id,
                self@.running == old(self)@.running,
                old(self)@.valid(),
                count_running(self@.jobs) == count_running(old(self)@.jobs),
            decreases self.jobs@.len(),
        {
            let mut i: usize = 0;
            while i < self.jobs.len() && self.jobs[i].state == State::Running
                invariant
                    i <= self.jobs@.len(),
                    first_finished(self@.jobs, i as int) == first_finished(self@.jobs, 0),
                decreases self.jobs@.len() - i,
            {
                assert(self@.jobs[i as int] == self.jobs@[i as int]@);
                i = i + 1;
            }
            proof {
                lemma_first_finished(self@.jobs, 0);
                if i < self.jobs@.len() {
                    assert(self@.jobs[i as int] == self.jobs@[i as int]@);
                }
            }
            if i == self.jobs.len() {
                proof {
                    lemma_count_all(self@.jobs);
                }
                return;
            }
            let ghost before = self@.jobs;
            proof {
                lemma_count_remove(before, i as int);
            }
            self.jobs.remove(i);
            assert(self@.jobs =~= before.remove(i as int));
        }
    }

    /// Accept a job, unless as many as may are already at work. Its number is
    /// returned.
    pub fn start(&mut self, op: Op, size: usize, name: &str, out_ext: &str) -> (r: Option<u64>)
        requires
            old(self)@.valid(),
            old(self)@.next_id < u64::MAX,
        ensures
            final(self)@.valid(),
            match r {
                None => old(self)@.running == MAX_RUNNING && final(self)@ == old(self)@,
                Some(id) => {
                    &&& old(self)@.running < MAX_RUNNING
                    &&& id == old(self)@.next_id
                    &&& final(self)@ == old(self)@.with_started(op, size, name@, out_ext@)
                    &&& final(self)@.find(id) == Some(
                        JobView::started(id, op, size, name@, out_ext@),
                    )
                },
            },
    {
        if self.running >= MAX_RUNNING {
            return None;
        }
        proof {
            law_start(self@, op, size, name@, out_ext@);
        }
        self.evict();
        let id: u64 = self.next_id;
        let total: usize = match op {
            Op::Video | Op::Convert => 0,
            _ => size,
        };
        let job = Job {
            id,
            state: State::Running,
            done: 0,
            total,
            in_size: size,
            out_size: 0,
            secs: "0.000".to_string(),
            op,
            name: name.to_string(),
            out_ext: out_ext.to_string(),
            error: "".to_string(),
            result: Vec::new(),
        };
        let ghost before = self@.jobs;
        assert(job@.result =~= Seq::empty());
        self.jobs.push(job);
        assert(self@.jobs =~= before.push(job@));
        self.next_id = id + 1;
        self.running = self.running + 1;
        assert(self@ =~= old(self)@.with_started(op, size, name@, out_ext@));
        Some(id)
    }

    /// The place of job `id`, or the number of jobs.
    fn place(&self, id: u64) -> (i: usize)
        ensures
            i == place_of(self@.jobs, id, 0),
            i <= self.jobs@.len(),
            i < self.jobs@.len() ==> self@.jobs[i as int] == self.jobs@[i as int]@,
    {
        let mut i: usize = 0;
        while i < self.jobs.len() && self.jobs[i].id != id
            invariant
                i <= self.jobs@.len(),
                place_of(self@.jobs, id, i as int) == place_of(self@.jobs, id, 0),
            decreases self.jobs@.len() - i,
        {
            assert(self@.jobs[i as int] == self.jobs@[i as int]@);
            i = i + 1;
        }
        assert(i < self.jobs@.len() ==> self@.jobs[i as int] == self.jobs@[i as int]@);
        i
    }

    /// Whether the numbers for jobs have run out.
    pub fn exhausted(&self) -> (r: bool)
        ensures
            r == (self@.next_id == u64::MAX),
    {
        self.next_id == u64::MAX
    }

    /// Whether job `id` is at work.
    pub fn is_running(&self, id: u64) -> (r: bool)
        ensures
            r == (self@.find(id) matches Some(j) && j.state == State::Running),
    {
        let i = self.place(id);
        i < self.jobs.len() && self.jobs[i].state == State::Running
    }

    /// Set the progress counter of job `id`.
    pub fn set_done(&mut self, id: u64, done: usize)
        requires
            old(self)@.valid(),
        ensures
            final(self)@ == old(self)@.with(id, |j: JobView| JobView { done, ..j }),
            final(self)@.valid(),
    {
        let ghost f = |j: JobView| JobView { done, ..j };
        let i = self.place(id);
        if i < self.jobs.len() {
            self.jobs[i].done = done;
        }
        proof {
            lemma_with_valid(old(self)@, id, f);
        }
        assert(self@ =~= old(self)@.with(id, f));
    }

    /// Set the progress counter of job `id` and its target.
    pub fn set_progress(&mut self, id: u64, done: usize, total: usize)
        requires
            old(self)@.valid(),
        ensures
            final(self)@ == old(self)@.with(
                id,
                |j: JobView|
                    JobView {
                        done,
                        total: if total == 0 {
                            1
                        } else {
                            total
                        },
                        ..j
                    },
            ),
            final(self)@.valid(),
    {
        let target: usize = if total == 0 {
            1
        } else {
            total
        };
        let ghost f = |j: JobView|
            JobView {
                done,
                total: if total == 0 {
                    1
                } else {
                    total
                },
                ..j
            };
        let i = self.place(id);
        if i < self.jobs.len() {
            self.jobs[i].done = done;
            self.jobs[i].total = target;
        }
        proof {
            lemma_with_valid(old(self)@, id, f);
        }
        assert(self@ =~= old(self)@.with(id, f));
    }

    /// Set the target of job `id`, once it is known.
    pub fn set_total(&mut self, id: u64, total: usize)
        requires
            old(self)@.valid(),
        ensures
            final(self)@ == old(self)@.with(id, |j: JobView| JobView { total, ..j }),
            final(self)@.valid(),
    {
        let ghost f = |j: JobView| JobView { total, ..j };
        let i = self.place(id);
        if i < self.jobs.len() {
            self.jobs[i].total = total;
        }
        proof {
            lemma_with_valid(old(self)@, id, f);
        }
        assert(self@ =~= old(self)@.with(id, f));
    }

    /// Set the footage that job `id` has written, in milliseconds. A zero target
    /// is the indeterminate case: nothing to clamp against.
    pub fn set_footage(&mut self, id: u64, ms: usize)
        requires
            old(self)@.valid(),
        ensures
            final(self)@ == old(self)@.with(
                id,
                |j: JobView|
                    JobView {
                        done: if j.total > 0 && ms > j.total {
                            j.total
                        } else {
                            ms
                        },
                        ..j
                    },
            ),
            final(self)@.valid(),
    {
        let ghost f = |j: JobView|
            JobView {
                done: if j.total > 0 && ms > j.total {
                    j.total
                } else {
                    ms
                },
                ..j
            };
        let i = self.place(id);
        if i < self.jobs.len() {
            let total: usize = self.jobs[i].total;
            self.jobs[i].done = if total > 0 && ms > total {
                total
            } else {
                ms
            };
        }
        proof {
            lemma_with_valid(old(self)@, id, f);
        }
        assert(self@ =~= old(self)@.with(id, f));
    }

    /// Job `id` has downloaded `size` bytes to a file called `name`.
    pub fn set_file(&mut self, id: u64, name: String, size: usize)
        requires
            old(self)@.valid(),
        ensures
            final(self)@ == old(self)@.with(
                id,
                |j: JobView|
                    JobView { name: name@, in_size: size, done: size, total: size, ..j },
            ),
            final(self)@.valid(),
    {
        let ghost f = |j: JobView|
            JobView { name: name@, in_size: size, done: size, total: size, ..j };
        let i = self.place(id);
        if i < self.jobs.len() {
            self.jobs[i].name = name;
            self.jobs[i].in_size = size;
            self.jobs[i].done = size;
            self.jobs[i].total = size;
        }
        proof {
            lemma_with_valid(old(self)@, id, f);
        }
        assert(self@ =~= old(self)@.with(id, f));
    }

    /// Job `id` has ended: with a result and the time it took, or with an error.
    /// There is room for another one from now on.
    pub fn finish(&mut self, id: u64, res: Result<(Vec<u8>, String), String>)
        requires
            old(self)@.valid(),
            old(self)@.find(id) matches Some(j) && j.state == State::Running,
        ensures
            final(self)@ == (RegistryView {
                running: (old(self)@.running - 1) as nat,
                ..old(self)@.with(
                    id,
                    |j: JobView|
                        match res {
                            Ok((out, secs)) => j.succeeded(out@, secs@),
                            Err(e) => j.failed(e@),
                        },
                )
            }),
            final(self)@.valid(),
    {
        let ghost f = |j: JobView|
            match res {
                Ok((out, secs)) => j.succeeded(out@, secs@),
                Err(e) => j.failed(e@),
            };
        let i = self.place(id);
        proof {
            lemma_with_valid(old(self)@, id, f);
            lemma_count_update(old(self)@.jobs, i as int, f(old(self)@.jobs[i as int]));
        }
        match res {
            Ok((out, secs)) => {
                self.jobs[i].done = self.jobs[i].total;
                self.jobs[i].out_size = out.len();
                self.jobs[i].secs = secs;
                self.jobs[i].result = out;
                self.jobs[i].state = State::Done;
            },
            Err(e) => {
                self.jobs[i].error = e;
                self.jobs[i].state = State::Failed;
            },
        }
        self.running = self.running - 1;
        assert(self@.jobs =~= old(self)@.with(id, f).jobs);
    }
}

/// What is asked of a job: its number, and whether its result is wanted rather
/// than its status. `rest` is what follows `/api/jobs/` in the path.
pub open spec fn asked_for(rest: Seq<char>) -> Option<(u64, bool)> {
    let (id, result) = match without_suffix(rest, "/result"@) {
        Some(s) => (s, true),
        None => (rest, false),
    };
    match number(id, u64::MAX as nat) {
        Some(n) => Some((n as u64, result)),
        None => None,
    }
}

/// The header line that names the result of a job.
pub open spec fn disposition(name: Seq<char>) -> Seq<char> {
    "Content-Disposition: attachment; filename=\""@ + header_safe(name) + "\"\r\n"@
}

/// What is answered to a request for a job.
pub open spec fn job_reply(r: RegistryView, rest: Seq<char>) -> ReplyView {
    match asked_for(rest) {
        None => ReplyView::error("400 Bad Request"@, "identifiant de tâche invalide"@),
        Some((id, result)) => match r.find(id) {
            None => ReplyView::error("404 Not Found"@, "tâche inconnue ou expirée"@),
            Some(j) => if !result {
                ReplyView::json("200 OK"@, j.status())
            } else if j.state != State::Done {
                ReplyView::error("409 Conflict"@, "tâche non terminée"@)
            } else {
                ReplyView {
                    status: "200 OK"@,
                    ctype: "application/octet-stream"@,
                    extra: disposition(j.file_name()),
                    body: j.result,
                }
            },
        },
    }
}

/// Answer a request for a job; `rest` is what follows `/api/jobs/` in the path.
pub fn get_job(r: &Registry, rest: &str) -> (reply: Reply)
    ensures
        reply@ == job_reply(r@, rest@),
{
    let (id_text, result): (String, bool) = match strip_suffix(rest, "/result") {
        Some(s) => (s, true),
        None => (rest.to_string(), false),
    };
    let id: u64 = match parse_number(id_text.as_str(), u64::MAX) {
        Some(n) => n,
        None => {
            return Reply::error("400 Bad Request", "identifiant de tâche invalide");
        },
    };
    let i = r.place(id);
    proof {
        lemma_place_of(r@.jobs, id, 0);
    }
    if i == r.jobs.len() {
        return Reply::error("404 Not Found", "tâche inconnue ou expirée");
    }
    let j: &Job = &r.jobs[i];
    if !result {
        return Reply::json("200 OK", j.status_json().as_str());
    }
    if j.state != State::Done {
        return Reply::error("409 Conflict", "tâche non terminée");
    }
    let mut extra = "Content-Disposition: attachment; filename=\"".to_string();
    extra.append(safe_for_header(download_name(j).as_str()).as_str());
    extra.append("\"\r\n");
    Reply {
        status: "200 OK",
        ctype: "application/octet-stream",
        extra,
        body: vstd::slice::slice_to_vec(j.result.as_slice()),
    }
}

/// A file name is taken without its directories, whichever way these are
/// separated, and without any there is a name of our own.
pub proof fn law_base_names(dir: Seq<char>, name: Seq<char>)
    requires
        !name.contains('/'),
        !name.contains('\\'),
    ensures
        name.len() > 0 ==> base_name(name) == name,
        name.len() > 0 ==> base_name(dir.push('/') + name) == name,
        name.len() > 0 ==> base_name(dir.push('\\') + name) == name,
        base_name(seq![]) == "fichier"@,
        base_name(dir.push('/')) == "fichier"@,
        base_name(dir.push('\\')) == "fichier"@,
{
    lemma_base_name(dir, name, '/');
    lemma_base_name(dir, name, '\\');
    let none = Seq::<char>::empty();
    lemma_base_name(dir, none, '/');
    lemma_base_name(dir, none, '\\');
    assert(dir.push('/') + none =~= dir.push('/'));
    assert(dir.push('\\') + none =~= dir.push('\\'));
}

proof fn lemma_base_name(dir: Seq<char>, name: Seq<char>, c: char)
    requires
        !name.contains('/'),
        !name.contains('\\'),
        c == '/' || c == '\\',
    ensures
        base_name(dir.push(c) + name) == (if name.len() > 0 {
            name
        } else {
            "fichier"@
        }),
        base_name(name) == (if name.len() > 0 {
            name
        } else {
            "fichier"@
        }),
{
    crate::text::law_halves(name, '/');
    crate::text::law_halves(name, '\\');
    lemma_no_halves(name, '/');
    lemma_no_halves(name, '\\');
    let path = dir.push(c) + name;
    if c == '/' {
        crate::text::law_halves_of_joined(dir, '/', name);
    } else {
        let a = match last_halves(path, '/') {
            Some((_, rest)) => rest,
            None => path,
        };
        crate::text::law_halves(path, '/');
        match last_halves(path, '/') {
            Some((head, rest)) => {
                let n = head.len() as int;
                assert(path[n] == '/') by {
                    assert((head.push('/') + rest)[n] == '/');
                }
                assert(n < dir.len()) by {
                    if n > dir.len() {
                        assert(name[n - dir.len() - 1] == '/');
                    }
                }
                let d = dir.skip(n + 1);
                assert(rest =~= d.push('\\') + name) by {
                    assert(rest =~= path.skip(n + 1)) by {
                        assert(path.skip(n + 1) =~= (head.push('/') + rest).skip(n + 1));
                        assert((head.push('/') + rest).skip(n + 1) =~= rest);
                    }
                }
                crate::text::law_halves_of_joined(d, '\\', name);
            },
            None => {
                crate::text::law_halves_of_joined(dir, '\\', name);
            },
        }
    }
}

proof fn lemma_no_halves(s: Seq<char>, c: char)
    requires
        !s.contains(c),
    ensures
        last_halves(s, c) is None,
{
    lemma_last_at(s, c, s.len() as int);
    let i = last_at(s, c, s.len() as int);
    if i >= 0 {
        assert(s[i] == c);
    }
}

/// What a result is called: the name with `.cpt` on when compressed and off when
/// decompressed, and as it is when downloaded.
pub proof fn law_codec_result_names(base: Seq<char>, any: Seq<char>, out_ext: Seq<char>)
    requires
        !any.contains('.'),
    ensures
        proposed_name(Op::Compress, base, out_ext) == base + ".cpt"@,
        proposed_name(Op::DownloadCompress, base, out_ext) == base + ".cpt"@,
        proposed_name(Op::Download, base, out_ext) == base,
        proposed_name(Op::Decompress, base + ".cpt"@, out_ext) == base,
        proposed_name(Op::Decompress, any, out_ext) == any,
{
    reveal_strlit(".cpt");
    crate::text::law_prefix_and_suffix(base, ".cpt"@);
    crate::text::law_prefix_and_suffix(any, ".cpt"@);
    if without_suffix(any, ".cpt"@) is Some {
        let r = without_suffix(any, ".cpt"@)->Some_0;
        assert((r + ".cpt"@)[r.len() as int] == '.');
    }
}

/// What ffmpeg makes is called after the upload, with `-reencode` and the extension
/// of its codec, or with the extension of its format, marked where the upload had
/// that one already.
pub proof fn law_ffmpeg_result_names(stem: Seq<char>, ext: Seq<char>, out_ext: Seq<char>)
    requires
        !ext.contains('.'),
    ensures
        proposed_name(Op::Video, stem.push('.') + ext, out_ext) == stem + "-reencode."@ + out_ext,
        lowered(ext) != lowered(out_ext) ==> proposed_name(
            Op::Convert,
            stem.push('.') + ext,
            out_ext,
        ) == stem + "."@ + out_ext,
        lowered(ext) == lowered(out_ext) ==> proposed_name(
            Op::Convert,
            stem.push('.') + ext,
            out_ext,
        ) == stem + "-converti."@ + out_ext,
{
    crate::text::law_halves_of_joined(stem, '.', ext);
    assert(stem_and_ext(stem.push('.') + ext) == (stem, ext));
}

/// An upload without an extension keeps its whole name.
pub proof fn law_bare_result_names(any: Seq<char>, out_ext: Seq<char>)
    requires
        !any.contains('.'),
        out_ext.len() > 0,
    ensures
        proposed_name(Op::Video, any, out_ext) == any + "-reencode."@ + out_ext,
        proposed_name(Op::Convert, any, out_ext) == any + "."@ + out_ext,
{
    lemma_no_halves(any, '.');
    assert(stem_and_ext(any) == (any, ""@));
    reveal_strlit("");
    assert(lowered(""@).len() == 0);
    assert(lowered(out_ext).len() == out_ext.len());
}

/// Only what could end the header it stands in is replaced in a name.
pub proof fn law_header_keeps_the_name(name: Seq<char>, i: int)
    requires
        0 <= i < name.len(),
    ensures
        header_safe(name).len() == name.len(),
        name[i] != '"' && name[i] != '\\' && name[i] != '\r' && name[i] != '\n' ==> header_safe(
            name,
        )[i] == name[i],
        name[i] == '"' || name[i] == '\\' || name[i] == '\r' || name[i] == '\n' ==> header_safe(
            name,
        )[i] == '_',
        disposition(name) == "Content-Disposition: attachment; filename=\""@ + header_safe(name)
            + "\"\r\n"@,
{
}

/// A job begins at nothing, with its size as the total, or none as long as the
/// duration is unknown.
pub proof fn law_jobs_begin(id: u64, op: Op, size: usize, name: Seq<char>, out_ext: Seq<char>)
    ensures
        ({
            let j = JobView::started(id, op, size, name, out_ext);
            let timed = op == Op::Video || op == Op::Convert;
            &&& j.id == id && j.op == op && j.name == name && j.out_ext == out_ext
            &&& j.state == State::Running && j.done == 0 && j.out_size == 0 && j.in_size == size
            &&& timed ==> j.total == 0 && op.unit_spec() == "ms"@
            &&& !timed ==> j.total == size && op.unit_spec() == "bytes"@
            &&& j.result.len() == 0 && j.error.len() == 0 && j.secs == "0.000"@
        }),
{
    reveal_strlit("");
}

/// A job ends with what it made or with the reason that it failed, and is
/// otherwise as it was; one that succeeds is done to the end.
pub proof fn law_jobs_end(j: JobView, out: Seq<u8>, secs: Seq<char>, error: Seq<char>)
    requires
        out.len() <= usize::MAX,
    ensures
        ({
            let s = j.succeeded(out, secs);
            &&& s.state == State::Done && s.result == out && s.out_size == out.len() && s.secs
                == secs && s.done == j.total
            &&& s.id == j.id && s.total == j.total && s.in_size == j.in_size && s.op == j.op
                && s.name == j.name && s.out_ext == j.out_ext && s.error == j.error
        }),
        ({
            let f = j.failed(error);
            &&& f.state == State::Failed && f.error == error
            &&& f.id == j.id && f.total == j.total && f.done == j.done && f.in_size == j.in_size
                && f.op == j.op && f.name == j.name && f.out_ext == j.out_ext && f.result
                == j.result && f.out_size == j.out_size && f.secs == j.secs
        }),
{
}

/// The status of a job tells all its figures.
pub proof fn law_status(j: JobView)
    ensures
        j.status() == "{\"state\":"@ + json_quoted(
            match j.state {
                State::Running => "running"@,
                State::Done => "done"@,
                State::Failed => "failed"@,
            },
        ) + ",\"op\":"@ + json_quoted(
            match j.op {
                Op::Compress => "compress"@,
                Op::Decompress => "decompress"@,
                Op::Video => "video"@,
                Op::Convert => "convert"@,
                Op::Download => "download"@,
                Op::DownloadCompress => "download-compress"@,
            },
        ) + ",\"done\":"@ + decimal(j.done as nat) + ",\"total\":"@ + decimal(j.total as nat)
            + ",\"unit\":"@ + json_quoted(
            if j.op == Op::Video || j.op == Op::Convert {
                "ms"@
            } else {
                "bytes"@
            },
        ) + ",\"in_size\":"@ + decimal(j.in_size as nat) + ",\"out_size\":"@ + decimal(
            j.out_size as nat,
        ) + ",\"secs\":"@ + j.secs + ",\"name\":"@ + json_quoted(j.name) + ",\"error\":"@
            + json_quoted(j.error) + "}"@,
{
}

/// A field of a job is what it is called.
pub proof fn law_job_view(j: Job)
    ensures
        j@.id == j.id && j@.state == j.state && j@.done == j.done && j@.total == j.total,
        j@.in_size == j.in_size && j@.out_size == j.out_size && j@.op == j.op,
        j@.secs == j.secs@ && j@.name == j.name@ && j@.out_ext == j.out_ext@,
        j@.error == j.error@ && j@.result == j.result@,
{
}

/// A job is found under its number, and under no other.
pub proof fn law_jobs_are_found(r: RegistryView, id: u64, i: int)
    requires
        r.valid(),
    ensures
        r.find(id) matches Some(j) ==> j.id == id && r.jobs.contains(j),
        0 <= i < r.jobs.len() ==> r.find(r.jobs[i].id) == Some(r.jobs[i]),
        r.find(id) is None ==> !(0 <= i < r.jobs.len() && r.jobs[i].id == id),
{
    lemma_place_of(r.jobs, id, 0);
    if 0 <= i < r.jobs.len() {
        let x = r.jobs[i].id;
        lemma_place_of(r.jobs, x, 0);
        let k = place_of(r.jobs, x, 0);
        if k < i {
            assert(r.jobs[k].id < r.jobs[i].id);
        } else if k > i {
            assert(r.jobs[i].id != x);
        }
    }
}

/// A change to a job changes it alone, and one to a job that is gone changes
/// nothing.
pub proof fn law_changes_are_local(
    r: RegistryView,
    id: u64,
    f: spec_fn(JobView) -> JobView,
    i: int,
)
    requires
        r.valid(),
        0 <= i < r.jobs.len(),
    ensures
        ({
            let s = r.with(id, f);
            &&& s.jobs.len() == r.jobs.len() && s.next_id == r.next_id && s.running == r.running
            &&& r.jobs[i].id == id ==> s.jobs[i] == f(r.jobs[i])
            &&& r.jobs[i].id != id ==> s.jobs[i] == r.jobs[i]
        }),
{
    lemma_place_of(r.jobs, id, 0);
    let k = place_of(r.jobs, id, 0);
    if r.jobs[i].id == id {
        if k < i {
            assert(r.jobs[k].id < r.jobs[i].id);
        } else if k > i {
            assert(r.jobs[i].id != id);
        }
    }
}

/// At most 32 jobs are kept and at most two run; up to 31 stay when one more
/// comes, and of 32 one goes.
pub proof fn law_room_for_jobs(r: RegistryView)
    requires
        r.valid(),
    ensures
        r.jobs.len() <= 32,
        r.running <= 2,
        r.jobs.len() < 32 ==> evicted(r.jobs) == r.jobs,
        r.jobs.len() == 32 ==> evicted(r.jobs).len() == 31,
{
    law_eviction(r);
    let i = first_finished(r.jobs, 0);
    if r.jobs.len() == 32 && 0 <= i < r.jobs.len() {
        assert(evicted(r.jobs) == evicted(r.jobs.remove(i)));
        assert(r.jobs.remove(i).len() == 31);
    }
}

/// A new job gets the next number, comes last, and counts as running.
pub proof fn law_jobs_are_numbered(
    r: RegistryView,
    op: Op,
    size: usize,
    name: Seq<char>,
    out_ext: Seq<char>,
)
    requires
        r.next_id < u64::MAX,
    ensures
        ({
            let s = r.with_started(op, size, name, out_ext);
            &&& s.jobs.last() == JobView::started(r.next_id, op, size, name, out_ext)
            &&& s.jobs.drop_last() == evicted(r.jobs)
            &&& s.next_id == r.next_id + 1
            &&& s.running == r.running + 1
        }),
{
    let s = r.with_started(op, size, name, out_ext);
    assert(s.jobs.drop_last() =~= evicted(r.jobs));
}

/// A path names a job by its number, and its result by that and `/result`.
pub proof fn law_job_paths(id: u64, rest: Seq<char>)
    ensures
        asked_for(decimal(id as nat)) == Some((id, false)),
        asked_for(decimal(id as nat) + "/result"@) == Some((id, true)),
        number(rest, u64::MAX as nat) is None && without_suffix(rest, "/result"@) is None
            ==> asked_for(rest) is None,
{
    let d = decimal(id as nat);
    crate::text::law_decimal_is_read_back(id as nat, u64::MAX as nat);
    crate::text::law_decimal_is_short(id as nat);
    crate::text::law_prefix_and_suffix(d, "/result"@);
    reveal_strlit("/result");
    if without_suffix(d, "/result"@) is Some {
        let r = without_suffix(d, "/result"@)->Some_0;
        assert((r + "/result"@)[r.len() as int] == '/');
        assert(d[r.len() as int] == '/');
    }
}

/// What is answered about a job: its status; its result once it is done; and why
/// not, where there is no such job, no such number or no result yet.
pub proof fn law_job_answers(r: RegistryView, rest: Seq<char>, id: u64, result: bool)
    requires
        asked_for(rest) == Some((id, result)),
    ensures
        r.find(id) is None ==> job_reply(r, rest) == ReplyView::error(
            "404 Not Found"@,
            "tâche inconnue ou expirée"@,
        ),
        r.find(id) matches Some(j) ==> {
            &&& !result ==> job_reply(r, rest) == ReplyView::json("200 OK"@, j.status())
            &&& result && j.state != State::Done ==> job_reply(r, rest) == ReplyView::error(
                "409 Conflict"@,
                "tâche non terminée"@,
            )
            &&& result && j.state == State::Done ==> {
                let a = job_reply(r, rest);
                &&& a.status == "200 OK"@ && a.ctype == "application/octet-stream"@
                &&& a.body == j.result
                &&& a.extra == disposition(proposed_name(j.op, base_name(j.name), j.out_ext))
            }
        },
{
}

/// What is no number of a job is refused.
pub proof fn law_bad_job_numbers(r: RegistryView, rest: Seq<char>)
    requires
        asked_for(rest) is None,
    ensures
        job_reply(r, rest) == ReplyView::error(
            "400 Bad Request"@,
            "identifiant de tâche invalide"@,
        ),
{
}

} // verus!
