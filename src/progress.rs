//! Advisory progress counters: one channel for archived entries, one for
//! bytes headed into the compressor. Totals grow while a shadow walk
//! estimates the work; once a channel is finished it takes no more updates.
use vstd::prelude::*;

verus! {

/// The largest value a counter holds; additions stop there.
pub const COUNTER_MAX: u64 = 0xffff_ffff_ffff_ffff;

/// The ticks between two redraws of the progress display.
pub const REDRAW_EVERY: u8 = 16;

/// One progress channel as numbers.
pub struct ChannelModel {
    pub done: int,
    pub total: int,
    pub finished: bool,
}

/// `a + n`, held at the counter's maximum.
pub open spec fn sat_add(a: int, n: int) -> int {
    if a + n > COUNTER_MAX as int {
        COUNTER_MAX as int
    } else {
        a + n
    }
}

/// A channel's consistency: finishing leaves the work done equal to the total.
pub open spec fn channel_wf(c: ChannelModel) -> bool {
    &&& 0 <= c.done <= COUNTER_MAX
    &&& 0 <= c.total <= COUNTER_MAX
    &&& c.finished ==> c.done <= c.total
}

/// The channel after its total grew by `n`; a finished channel is unchanged.
pub open spec fn grow_total(c: ChannelModel, n: int) -> ChannelModel {
    if c.finished {
        c
    } else {
        ChannelModel { total: sat_add(c.total, n), ..c }
    }
}

/// The channel after `n` more units of work were done.
pub open spec fn grow_done(c: ChannelModel, n: int) -> ChannelModel {
    if c.finished {
        c
    } else {
        ChannelModel { done: sat_add(c.done, n), ..c }
    }
}

/// The channel once finished: the total is raised to the work done if it
/// fell short, and the work done is the total.
pub open spec fn finish_channel(c: ChannelModel) -> ChannelModel {
    if c.finished {
        c
    } else {
        let t = if c.done > c.total { c.done } else { c.total };
        ChannelModel { done: t, total: t, finished: true }
    }
}

/// One progress channel.
pub struct ProgressChannel {
    done: u64,
    total: u64,
    finished: bool,
}

impl View for ProgressChannel {
    type V = ChannelModel;

    closed spec fn view(&self) -> ChannelModel {
        ChannelModel { done: self.done as int, total: self.total as int, finished: self.finished }
    }
}

impl ProgressChannel {
    /// A finished channel has done no more than its total.
    #[verifier::type_invariant]
    spec fn inv(&self) -> bool {
        self.finished ==> self.done <= self.total
    }

    /// An open channel with nothing done and nothing expected yet.
    pub fn new() -> (r: ProgressChannel)
        ensures
            r@ == (ChannelModel { done: 0, total: 0, finished: false }),
    {
        ProgressChannel { done: 0, total: 0, finished: false }
    }

    /// The work done so far.
    pub fn done(&self) -> (r: u64)
        ensures
            r == self@.done,
            channel_wf(self@),
    {
        proof {
            use_type_invariant(self);
        }
        self.done
    }

    /// The work expected in all.
    pub fn total(&self) -> (r: u64)
        ensures
            r == self@.total,
            channel_wf(self@),
    {
        proof {
            use_type_invariant(self);
        }
        self.total
    }

    /// Whether the channel was finished.
    pub fn is_finished(&self) -> (r: bool)
        ensures
            r == self@.finished,
            channel_wf(self@),
    {
        proof {
            use_type_invariant(self);
        }
        self.finished
    }

    /// Raises the total by `n`, unless the channel is finished.
    pub fn inc_total(&mut self, n: u64)
        ensures
            final(self)@ == grow_total(old(self)@, n as int),
            channel_wf(final(self)@),
    {
        if !self.finished {
            self.total = self.total.saturating_add(n);
        }
        proof {
            use_type_invariant(&*self);
        }
    }

    /// Counts `n` more units of work done, unless the channel is finished.
    pub fn inc_done(&mut self, n: u64)
        ensures
            final(self)@ == grow_done(old(self)@, n as int),
            channel_wf(final(self)@),
    {
        if !self.finished {
            self.done = self.done.saturating_add(n);
        }
        proof {
            use_type_invariant(&*self);
        }
    }

    /// Sets the work done to `done`, unless the channel is finished.
    pub fn set_done(&mut self, done: u64)
        ensures
            final(self)@ == (if old(self)@.finished { old(self)@ } else { ChannelModel { done: done as int, ..old(self)@ } }),
            channel_wf(final(self)@),
    {
        if !self.finished {
            self.done = done;
        }
        proof {
            use_type_invariant(&*self);
        }
    }

    /// Finishes the channel; the work done then equals the total.
    pub fn finish(&mut self)
        ensures
            final(self)@ == finish_channel(old(self)@),
            final(self)@.finished,
            final(self)@.done <= final(self)@.total,
    {
        proof {
            use_type_invariant(&*self);
        }
        if !self.finished {
            if self.done > self.total {
                self.total = self.done;
            }
            self.done = self.total;
            self.finished = true;
        }
    }
}

/// Finishing a consistent channel leaves it consistent, with the work done
/// no greater than the total; growing either counter keeps it consistent.
pub proof fn lemma_finish_keeps_done_within_total(c: ChannelModel, n: int)
    requires
        channel_wf(c),
        n >= 0,
    ensures
        channel_wf(finish_channel(c)),
        finish_channel(c).finished,
        finish_channel(c).done <= finish_channel(c).total,
        channel_wf(grow_total(c, n)),
        channel_wf(grow_done(c, n)),
{
}

/// Both channels as numbers.
pub struct StateModel {
    pub entries: ChannelModel,
    pub bytes: ChannelModel,
}

/// The state of a run before any work was estimated or done.
pub open spec fn fresh_state() -> StateModel {
    StateModel {
        entries: ChannelModel { done: 0, total: 0, finished: false },
        bytes: ChannelModel { done: 0, total: 0, finished: false },
    }
}

/// Whether the shadow walk can still change anything: some channel is open.
pub open spec fn estimate_accepted(s: StateModel) -> bool {
    !s.bytes.finished || !s.entries.finished
}

/// The state after the shadow walk met one more entry, of `size` bytes
/// when its size could be read.
pub open spec fn estimate_step(s: StateModel, size: Option<u64>) -> StateModel {
    StateModel {
        entries: grow_total(s.entries, 1),
        bytes: match size {
            Some(n) => grow_total(s.bytes, n as int),
            None => s.bytes,
        },
    }
}

/// The allowance added to a byte total for what the archive format and the
/// compressor add: three percent, rounded down.
pub open spec fn overhead(total: int) -> int {
    total * 3 / 100
}

/// The state once the byte total got its allowance.
pub open spec fn inflate_step(s: StateModel) -> StateModel {
    StateModel { bytes: grow_total(s.bytes, overhead(s.bytes.total)), ..s }
}

/// Why the shadow walk stops: both channels are finished.
#[derive(Debug, Clone, Copy, PartialEq, Eq, Structural)]
pub struct NoFurtherUpdates;

/// The two channels of one run.
pub struct ProgressState {
    pub entries: ProgressChannel,
    pub bytes: ProgressChannel,
}

impl View for ProgressState {
    type V = StateModel;

    open spec fn view(&self) -> StateModel {
        StateModel { entries: self.entries@, bytes: self.bytes@ }
    }
}

impl ProgressState {
    /// Both channels open and empty.
    pub fn new() -> (r: ProgressState)
        ensures
            r@ == fresh_state(),
    {
        ProgressState { entries: ProgressChannel::new(), bytes: ProgressChannel::new() }
    }
}

/// Records one entry met by the shadow walk: its size, when known, raises
/// the byte total and the entry total grows by one, each only while its
/// channel is open. Fails, changing nothing, when both channels are
/// finished, which tells the shadow walk to stop.
pub fn estimate_entry(state: &mut ProgressState, size: Option<u64>) -> (r: Result<(), NoFurtherUpdates>)
    ensures
        final(state)@ == estimate_step(old(state)@, size),
        r is Ok <==> estimate_accepted(old(state)@),
{
    let mut updated: u8 = 0;
    if !state.bytes.is_finished() {
        match size {
            Some(n) => state.bytes.inc_total(n),
            None => {},
        }
        updated += 1;
    }
    if !state.entries.is_finished() {
        state.entries.inc_total(1);
        updated += 1;
    }
    if updated == 0 {
        Err(NoFurtherUpdates)
    } else {
        Ok(())
    }
}

/// Three percent of `total`, rounded down.
pub fn overhead_of(total: u64) -> (r: u64)
    ensures
        r == overhead(total as int),
{
    let q = total / 100;
    let m = total % 100;
    proof {
        assert(total as int == 100 * q + m);
        assert((total as int) * 3 / 100 == 3 * q + m * 3 / 100) by (nonlinear_arith)
            requires
                total as int == 100 * q + m,
                0 <= m < 100,
        ;
    }
    q * 3 + m * 3 / 100
}

/// Adds the overhead allowance to the byte total once the shadow walk is over.
pub fn inflate_estimate(state: &mut ProgressState)
    ensures
        final(state)@ == inflate_step(old(state)@),
{
    let extra = overhead_of(state.bytes.total());
    state.bytes.inc_total(extra);
}

/// The state after the shadow walk met entries of the given sizes in turn;
/// it stops at the first entry that no channel accepts.
pub open spec fn shadow_run(s: StateModel, sizes: Seq<Option<u64>>) -> StateModel
    decreases sizes.len(),
{
    if sizes.len() == 0 || !estimate_accepted(s) {
        s
    } else {
        shadow_run(estimate_step(s, sizes[0]), sizes.drop_first())
    }
}

/// The bytes of the entries whose size was read.
pub open spec fn known_bytes(sizes: Seq<Option<u64>>) -> int
    decreases sizes.len(),
{
    if sizes.len() == 0 {
        0
    } else {
        (match sizes[0] {
            Some(n) => n as int,
            None => 0,
        }) + known_bytes(sizes.drop_first())
    }
}

/// At most the counter's maximum.
pub open spec fn capped(n: int) -> int {
    if n > COUNTER_MAX as int {
        COUNTER_MAX as int
    } else {
        n
    }
}

proof fn lemma_known_bytes_nonneg(sizes: Seq<Option<u64>>)
    ensures
        known_bytes(sizes) >= 0,
    decreases sizes.len(),
{
    if sizes.len() > 0 {
        lemma_known_bytes_nonneg(sizes.drop_first());
    }
}

proof fn lemma_shadow_run_open(s: StateModel, sizes: Seq<Option<u64>>)
    requires
        !s.entries.finished,
        !s.bytes.finished,
        0 <= s.entries.total <= COUNTER_MAX,
        0 <= s.bytes.total <= COUNTER_MAX,
    ensures
        shadow_run(s, sizes).entries.total == capped(s.entries.total + sizes.len()),
        shadow_run(s, sizes).bytes.total == capped(s.bytes.total + known_bytes(sizes)),
        !shadow_run(s, sizes).bytes.finished,
    decreases sizes.len(),
{
    lemma_known_bytes_nonneg(sizes);
    if sizes.len() > 0 {
        let t = sizes.drop_first();
        lemma_known_bytes_nonneg(t);
        lemma_shadow_run_open(estimate_step(s, sizes[0]), t);
    }
}

/// What a shadow walk leaves depends on the entries it met alone: from a
/// fresh state, after one entry of each given size and the overhead
/// allowance, the entry total is the number of entries and the byte total
/// is the sum of the known sizes plus three percent, both held at the
/// counter's maximum. Walking an unchanged tree twice gives the same totals.
pub proof fn lemma_shadow_totals(sizes: Seq<Option<u64>>)
    ensures
        inflate_step(shadow_run(fresh_state(), sizes)).entries.total == capped(sizes.len() as int),
        inflate_step(shadow_run(fresh_state(), sizes)).bytes.total
            == capped(capped(known_bytes(sizes)) + overhead(capped(known_bytes(sizes)))),
{
    lemma_shadow_run_open(fresh_state(), sizes);
}

/// Counts the sampler's ticks to pace the redraws of the display.
pub struct Sampler {
    ticks: u8,
}

impl View for Sampler {
    type V = int;

    closed spec fn view(&self) -> int {
        self.ticks as int
    }
}

impl Sampler {
    /// A sampler that has not ticked yet.
    pub fn new() -> (r: Sampler)
        ensures
            r@ == 0,
    {
        Sampler { ticks: 0 }
    }

    /// One tick: publishes `consumed`, the bytes the compressor has taken in
    /// so far, as the byte channel's work done (unless the channel is
    /// finished), and says whether this tick redraws the display, which is
    /// every sixteenth tick.
    pub fn tick(&mut self, bytes: &mut ProgressChannel, consumed: u64) -> (redraw: bool)
        ensures
            final(bytes)@ == (if old(bytes)@.finished { old(bytes)@ } else { ChannelModel { done: consumed as int, ..old(bytes)@ } }),
            final(self)@ == (old(self)@ + 1) % 256,
            redraw == (final(self)@ % (REDRAW_EVERY as int) == 0),
    {
        bytes.set_done(consumed);
        self.ticks = self.ticks.wrapping_add(1);
        self.ticks % REDRAW_EVERY == 0
    }
}

} // verus!
