//! A line buffer that collects log text and hands it out in one piece.
use vstd::prelude::*;
use vstd::string::*;
use vstd::utf8::encode_utf8;

verus! {

/// Collected log bytes, not yet written.
#[derive(Debug, Default)]
pub struct LazyLogger {
    pub buf: Vec<u8>,
}

/// The bytes of the line that records converting `input` to `output`.
pub open spec fn input_output_line(input: Seq<char>, output: Seq<char>) -> Seq<u8> {
    encode_utf8("Converting '"@) + encode_utf8(input) + encode_utf8("' to '"@) + encode_utf8(output)
        + encode_utf8("'"@)
}

impl LazyLogger {
    /// An empty buffer.
    pub fn new() -> (r: LazyLogger)
        ensures
            r.buf@.len() == 0,
    {
        LazyLogger { buf: Vec::new() }
    }

    /// Starts a new line and records that `input` is converted to `output`.
    pub fn log_input_output(&mut self, input: &str, output: &str)
        ensures
            final(self).buf@ == old(self).buf@.push(10u8) + input_output_line(input@, output@),
    {
        self.new_line();
        self.insert("Converting '");
        self.insert(input);
        self.insert("' to '");
        self.insert(output);
        self.insert("'");
        assert(final(self).buf@ =~= old(self).buf@.push(10u8) + input_output_line(input@, output@));
    }

    /// Appends the UTF-8 bytes of `s`.
    pub fn insert(&mut self, s: &str)
        ensures
            final(self).buf@ == old(self).buf@ + encode_utf8(s@),
    {
        let bytes = s.as_bytes();
        let mut i: usize = 0;
        while i < bytes.len()
            invariant
                i <= bytes@.len(),
                bytes@ == encode_utf8(s@),
                self.buf@ == old(self).buf@ + bytes@.subrange(0, i as int),
            decreases bytes@.len() - i,
        {
            self.buf.push(bytes[i]);
            assert(bytes@.subrange(0, i + 1) =~= bytes@.subrange(0, i as int).push(bytes@[i as int]));
            i += 1;
        }
        assert(bytes@.subrange(0, bytes@.len() as int) =~= bytes@);
    }

    /// Appends a line feed.
    pub fn new_line(&mut self)
        ensures
            final(self).buf@ == old(self).buf@.push(10u8),
    {
        self.buf.push(10u8);
    }

    /// Drops everything collected.
    pub fn clear(&mut self)
        ensures
            final(self).buf@.len() == 0,
    {
        self.buf.clear();
    }

    /// Ends the last line and hands out everything collected, leaving the
    /// buffer empty.
    pub fn take_contents(&mut self) -> (r: Vec<u8>)
        ensures
            r@ == old(self).buf@.push(10u8),
            final(self).buf@.len() == 0,
    {
        self.new_line();
        let mut out: Vec<u8> = Vec::new();
        core::mem::swap(&mut self.buf, &mut out);
        out
    }
}

} // verus!
