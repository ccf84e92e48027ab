use vstd::prelude::*;

verus! {

/// Number of samples held by a buffer; the cursor is a `u16` that wraps around it.
pub const BUFFER_SIZE: usize = 65536;

/// Relies on `rand::random::<u32>`: a value of the thread-local generator. Nothing is
/// promised of it.
#[verifier::external_body]
fn random_sample() -> (r: u32) {
    rand::random::<u32>()
}

/// A ring of pre-drawn uniform samples. A sample `s` stands for the number `s / 2^32` in
/// `[0, 1)`. Reading advances a wrapping cursor; regenerating redraws the slot under it.
pub struct RngBuffer {
    values: Vec<u32>,
    next: u16,
}

/// The abstract state of a buffer: its samples and the slot under the cursor.
pub struct RngView {
    pub values: Seq<u32>,
    pub cursor: int,
}

impl RngView {
    pub open spec fn wf(self) -> bool {
        &&& self.values.len() == BUFFER_SIZE
        &&& 0 <= self.cursor < BUFFER_SIZE
    }

    /// The state after the cursor moves one slot on, wrapping at the end.
    pub open spec fn advanced(self) -> RngView {
        RngView { values: self.values, cursor: (self.cursor + 1) % (BUFFER_SIZE as int) }
    }

    /// The sample under the cursor.
    pub open spec fn current(self) -> u32 {
        self.values[self.cursor]
    }
}

impl View for RngBuffer {
    type V = RngView;

    closed spec fn view(&self) -> RngView {
        RngView { values: self.values@, cursor: self.next as int }
    }
}

impl RngBuffer {
    pub open spec fn wf(&self) -> bool {
        self@.wf()
    }

    /// A buffer filled with fresh samples, its cursor at the first slot.
    pub fn init() -> (r: RngBuffer)
        ensures
            r.wf(),
            r@.cursor == 0,
    {
        let mut values: Vec<u32> = Vec::with_capacity(BUFFER_SIZE);
        let mut i: usize = 0;
        while i < BUFFER_SIZE
            invariant
                i <= BUFFER_SIZE,
                values@.len() == i,
            decreases BUFFER_SIZE - i,
        {
            values.push(random_sample());
            i = i + 1;
        }
        RngBuffer { values, next: 0 }
    }

    /// A buffer holding the given samples, its cursor at the first slot.
    pub fn with_values(values: Vec<u32>) -> (r: RngBuffer)
        requires
            values@.len() == BUFFER_SIZE,
        ensures
            r.wf(),
            r@ == (RngView { values: values@, cursor: 0 }),
    {
        RngBuffer { values, next: 0 }
    }

    /// Redraws the slot under the cursor after moving it on, and returns the new sample.
    pub fn generate_next(&mut self) -> (r: u32)
        requires
            old(self).wf(),
        ensures
            final(self).wf(),
            final(self)@.cursor == old(self)@.advanced().cursor,
            final(self)@.values == old(self)@.values.update(final(self)@.cursor, r),
            r == final(self)@.current(),
    {
        self.increment();
        self.regenerate();
        self.read()
    }

    /// Moves the cursor on and returns the sample under it.
    pub fn next(&mut self) -> (r: u32)
        requires
            old(self).wf(),
        ensures
            final(self).wf(),
            final(self)@ == old(self)@.advanced(),
            r == final(self)@.current(),
    {
        self.increment();
        self.read()
    }

    fn increment(&mut self)
        requires
            old(self).wf(),
        ensures
            final(self).wf(),
            final(self)@ == old(self)@.advanced(),
    {
        self.next = self.next.wrapping_add(1);
    }

    fn read(&self) -> (r: u32)
        requires
            self.wf(),
        ensures
            r == self@.current(),
    {
        self.values[self.next as usize]
    }

    fn regenerate(&mut self)
        requires
            old(self).wf(),
        ensures
            final(self).wf(),
            final(self)@.cursor == old(self)@.cursor,
            final(self)@.values == old(self)@.values.update(old(self)@.cursor, final(self)@.current()),
    {
        let index = self.next as usize;
        self.values.set(index, random_sample());
    }
}

} // verus!
