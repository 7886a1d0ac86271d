use vstd::prelude::*;

verus! {

/// Number of bytes in one word.
pub const WORD_NUM_BYTES: usize = 4;

/// The little-endian word made of the four bytes starting at `4 * i`.
pub open spec fn word_of(b: Seq<u8>, i: int) -> u32 {
    (b[4 * i] as u32) | ((b[4 * i + 1] as u32) << 8u32) | ((b[4 * i + 2] as u32) << 16u32) | ((
    b[4 * i + 3] as u32) << 24u32)
}

/// The words of a byte buffer; trailing bytes that do not fill a word are not part of it.
pub open spec fn words_of(b: Seq<u8>) -> Seq<u32> {
    Seq::new((b.len() / 4) as nat, |i: int| word_of(b, i))
}

/// Errors of the word cursor. Offsets are in bytes from the start of the buffer.
#[derive(Debug, Clone, Copy, PartialEq, Eq)]
pub enum DecodeError {
    /// The buffer ended where a word was expected.
    StreamExpected(usize),
    /// The current window has no words left.
    LimitReached(usize),
    /// A word does not name a known enumerant (or holds unknown flag bits).
    EnumerantUnknown(usize, u32),
}

/// What the cursor holds: the words, the position of the next word, and the end of
/// the current window, if one is open.
pub struct CursorView {
    pub words: Seq<u32>,
    pub pos: nat,
    pub end: Option<nat>,
}

/// Reading the word at `pos`, with the window ending at `end`.
pub open spec fn read_word(w: Seq<u32>, pos: nat, end: Option<nat>) -> Result<u32, DecodeError> {
    if end is Some && pos >= end->0 {
        Err(DecodeError::LimitReached((4 * pos) as usize))
    } else if pos >= w.len() {
        Err(DecodeError::StreamExpected((4 * pos) as usize))
    } else {
        Ok(w[pos as int])
    }
}

/// A cursor over the words of a buffer, with an optional window bounding how many
/// further words may be read.
pub struct Decoder {
    words: Vec<u32>,
    pos: usize,
    limit: Option<usize>,
}

impl View for Decoder {
    type V = CursorView;

    closed spec fn view(&self) -> CursorView {
        CursorView {
            words: self.words@,
            pos: self.pos as nat,
            end: match self.limit {
                Some(l) => Some((self.pos + l) as nat),
                None => None,
            },
        }
    }
}

impl Decoder {
    /// The cursor is within its words, and their byte offsets fit in `usize`.
    pub open spec fn wf(&self) -> bool {
        &&& self@.pos <= self@.words.len()
        &&& self@.words.len() * 4 <= usize::MAX
    }

    /// Creates a cursor at the first word of `bytes`.
    pub fn new(bytes: Vec<u8>) -> (r: Decoder)
        ensures
            r.wf(),
            r@.words == words_of(bytes@),
            r@.pos == 0,
            r@.end is None,
    {
        let n: usize = bytes.len() / WORD_NUM_BYTES;
        let mut words: Vec<u32> = Vec::with_capacity(n);
        let mut i: usize = 0;
        while i < n
            invariant
                n == bytes@.len() / 4,
                bytes@.len() == bytes.len(),
                i <= n,
                words@ =~= words_of(bytes@).take(i as int),
            decreases n - i,
        {
            assert(i * 4 + 3 < bytes@.len()) by (nonlinear_arith)
                requires
                    i < n,
                    n == bytes@.len() / 4,
            ;
            let k: usize = i * 4;
            let wd: u32 = (bytes[k] as u32) | ((bytes[k + 1] as u32) << 8u32) | ((bytes[k + 2] as u32)
                << 16u32) | ((bytes[k + 3] as u32) << 24u32);
            words.push(wd);
            i = i + 1;
            assert(words@ =~= words_of(bytes@).take(i as int));
        }
        assert(words@ =~= words_of(bytes@));
        Decoder { words, pos: 0, limit: None }
    }

    /// Byte offset of the next word.
    pub fn offset(&self) -> (r: usize)
        requires
            self.wf(),
        ensures
            r == 4 * self@.pos,
    {
        self.pos * WORD_NUM_BYTES
    }

    /// Reads the next word, within the current window.
    pub fn word(&mut self) -> (r: Result<u32, DecodeError>)
        requires
            old(self).wf(),
        ensures
            final(self).wf(),
            r == read_word(old(self)@.words, old(self)@.pos, old(self)@.end),
            final(self)@.words == old(self)@.words,
            final(self)@.end == old(self)@.end,
            final(self)@.pos == if r is Ok { old(self)@.pos + 1 } else { old(self)@.pos },
    {
        let off = self.pos * WORD_NUM_BYTES;
        match self.limit {
            Some(l) => {
                if l == 0 {
                    return Err(DecodeError::LimitReached(off));
                }
            },
            None => {},
        }
        if self.pos >= self.words.len() {
            return Err(DecodeError::StreamExpected(off));
        }
        let wd = self.words[self.pos];
        self.pos = self.pos + 1;
        self.limit = match self.limit {
            Some(l) => Some(l - 1),
            None => None,
        };
        Ok(wd)
    }

    /// Reads an identifier: one word.
    pub fn id(&mut self) -> (r: Result<u32, DecodeError>)
        requires
            old(self).wf(),
        ensures
            final(self).wf(),
            r == read_word(old(self)@.words, old(self)@.pos, old(self)@.end),
            final(self)@.words == old(self)@.words,
            final(self)@.end == old(self)@.end,
            final(self)@.pos == if r is Ok { old(self)@.pos + 1 } else { old(self)@.pos },
    {
        self.word()
    }

    /// Reads exactly `n` words, or fails without a partial result when fewer remain.
    pub fn words(&mut self, n: usize) -> (r: Result<Vec<u32>, DecodeError>)
        requires
            old(self).wf(),
            old(self)@.end is None,
        ensures
            final(self).wf(),
            final(self)@.words == old(self)@.words,
            final(self)@.end is None,
            final(self)@.pos <= final(self)@.words.len(),
            old(self)@.pos + n <= old(self)@.words.len() ==> r is Ok && final(self)@.pos == old(
                self,
            )@.pos + n && r->Ok_0@ == old(self)@.words.subrange(
                old(self)@.pos as int,
                old(self)@.pos + n,
            ),
            old(self)@.pos + n > old(self)@.words.len() ==> r == Err::<Vec<u32>, DecodeError>(
                DecodeError::StreamExpected((4 * old(self)@.words.len()) as usize),
            ),
    {
        if n > self.words.len() - self.pos {
            return Err(DecodeError::StreamExpected(self.words.len() * WORD_NUM_BYTES));
        }
        let mut out: Vec<u32> = Vec::with_capacity(n);
        let start = self.pos;
        let mut i: usize = 0;
        while i < n
            invariant
                self.wf(),
                self.words == old(self).words,
                self.limit is None,
                start == old(self).pos,
                start + n <= self.words.len(),
                i <= n,
                self.pos == start + i,
                out@ =~= self.words@.subrange(start as int, start + i),
            decreases n - i,
        {
            out.push(self.words[self.pos]);
            self.pos = self.pos + 1;
            i = i + 1;
            assert(out@ =~= self.words@.subrange(start as int, start + i));
        }
        Ok(out)
    }

    /// Opens a window of at most `n` further words.
    pub fn set_limit(&mut self, n: usize)
        requires
            old(self).wf(),
        ensures
            final(self).wf(),
            final(self)@ == (CursorView { end: Some((old(self)@.pos + n) as nat), ..old(self)@ }),
    {
        self.limit = Some(n);
    }

    /// Closes the window.
    pub fn clear_limit(&mut self)
        requires
            old(self).wf(),
        ensures
            final(self).wf(),
            final(self)@ == (CursorView { end: None, ..old(self)@ }),
    {
        self.limit = None;
    }

    /// Whether the window is open and has no words left.
    pub fn limit_reached(&self) -> (r: bool)
        requires
            self.wf(),
        ensures
            r == (self@.end is Some && self@.pos >= self@.end->0),
    {
        match self.limit {
            Some(l) => l == 0,
            None => false,
        }
    }
}

} // verus!
