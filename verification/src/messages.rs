use vstd::prelude::*;
use crate::colors::Color;

verus! {

/// The event log: coloured lines of text in the order in which they were added.
pub struct Messages {
    messages: Vec<(String, Color)>,
}

impl View for Messages {
    type V = Seq<(Seq<char>, Color)>;

    closed spec fn view(&self) -> Seq<(Seq<char>, Color)> {
        self.messages@.map_values(|m: (String, Color)| (m.0@, m.1))
    }
}

impl Messages {
    /// An empty log.
    pub fn new() -> (log: Messages)
        ensures
            log@ == Seq::<(Seq<char>, Color)>::empty(),
    {
        let log = Messages { messages: Vec::new() };
        assert(log@ =~= Seq::<(Seq<char>, Color)>::empty());
        log
    }

    /// Appends one line; every earlier line stays where it was.
    pub fn add(&mut self, message: String, colour: Color)
        ensures
            final(self)@ == old(self)@.push((message@, colour)),
    {
        self.messages.push((message, colour));
        assert(self@ =~= old(self)@.push((message@, colour)));
    }

    /// The lines from the oldest to the newest; the iterator can be walked
    /// from either end.
    pub fn iter(&self) -> (lines: core::slice::Iter<'_, (String, Color)>)
        ensures
            vstd::std_specs::slice::into_iter_elts(lines).map_values(
                |m: (String, Color)| (m.0@, m.1),
            ) == self@,
    {
        self.messages.iter()
    }

    /// Number of lines in the log.
    pub fn len(&self) -> (n: usize)
        ensures
            n == self@.len(),
    {
        self.messages.len()
    }

    /// The line at position `i`, counted from the oldest.
    pub fn get(&self, i: usize) -> (line: &(String, Color))
        requires
            i < self@.len(),
        ensures
            (line.0@, line.1) == self@[i as int],
    {
        &self.messages[i]
    }
}

} // verus!
