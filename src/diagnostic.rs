use vstd::prelude::*;

verus! {

#[derive(Debug, Clone, Copy, PartialEq, Eq, Structural)]
pub enum Level {
    Error,
    Warning,
}

/// A message of a compile run, with its severity.
#[derive(Debug)]
pub struct Diagnostic {
    pub level: Level,
    pub message: String,
}

impl View for Diagnostic {
    type V = (Level, Seq<char>);

    open spec fn view(&self) -> (Level, Seq<char>) {
        (self.level, self.message@)
    }
}

/// What a list of diagnostics says, message by message.
pub open spec fn report(ds: Seq<Diagnostic>) -> Seq<(Level, Seq<char>)> {
    ds.map_values(|d: Diagnostic| d@)
}

impl Diagnostic {
    pub fn new(level: Level, message: String) -> (r: Self)
        ensures
            r.level == level,
            r.message == message,
    {
        Diagnostic { level, message }
    }

    pub fn level(&self) -> (r: Level)
        ensures
            r == self.level,
    {
        self.level
    }

    pub fn message(&self) -> (r: &str)
        ensures
            r@ == self.message@,
    {
        self.message.as_str()
    }

    /// A copy of this diagnostic.
    pub fn copy(&self) -> (r: Self)
        ensures
            r == *self,
    {
        Diagnostic { level: self.level, message: self.message.clone() }
    }

    /// Appends `diagnostic` to the collector `sink`.
    pub fn push_new(sink: &mut Vec<Diagnostic>, diagnostic: Diagnostic)
        ensures
            final(sink)@ == old(sink)@.push(diagnostic),
    {
        sink.push(diagnostic);
    }

    /// A copy of what the collector `sink` holds, in order.
    pub fn diagnostics(sink: &Vec<Diagnostic>) -> (r: Vec<Diagnostic>)
        ensures
            r@ == sink@,
    {
        let mut r: Vec<Diagnostic> = Vec::new();
        let mut i: usize = 0;
        while i < sink.len()
            invariant
                i <= sink@.len(),
                r@ == sink@.subrange(0, i as int),
            decreases sink@.len() - i,
        {
            r.push(sink[i].copy());
            i = i + 1;
            assert(r@ =~= sink@.subrange(0, i as int));
        }
        assert(r@ =~= sink@);
        r
    }

    /// Empties the collector `sink`, as each independent compile begins.
    pub fn clear(sink: &mut Vec<Diagnostic>)
        ensures
            final(sink)@ == Seq::<Diagnostic>::empty(),
    {
        sink.clear();
    }
}

} // verus!
