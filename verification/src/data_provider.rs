//! A buffered view of a byte source: exact-length reads and reads of
//! terminated strings.
use crate::text::string_from_utf8;
use vstd::prelude::*;
use vstd::utf8::{decode_utf8, valid_utf8};

verus! {

/// What a byte source reports when it fails.
#[derive(Debug, PartialEq, Eq)]
pub struct SourceError {
    pub message: String,
}

/// Anything that hands out a stream of bytes piece by piece.
///
/// A source is described by the bytes it has yet to hand out and by how it
/// ends once they are handed out: cleanly, or with a failure that it
/// reports in words.
pub trait ByteSource {
    /// The bytes that the source has yet to hand out.
    spec fn pending(&self) -> Seq<u8>;

    /// What the source reports once its bytes are handed out, where it
    /// fails then.
    spec fn failure(&self) -> Option<Seq<char>>;

    /// Fills a front part of `buf` with the next bytes and tells how many
    /// bytes that were.  As long as bytes are pending and `buf` has room, at
    /// least one byte is handed out.  Once no byte is pending, a source that
    /// ends cleanly hands out zero bytes, and one that fails reports its
    /// failure.
    fn read(&mut self, buf: &mut [u8]) -> (count: Result<usize, SourceError>)
        ensures
            final(self).failure() == old(self).failure(),
            final(buf)@.len() == old(buf)@.len(),
            match count {
                Ok(n) => {
                    &&& n <= old(buf)@.len()
                    &&& n <= old(self).pending().len()
                    &&& n == 0 ==> old(buf)@.len() == 0 || (old(self).pending().len() == 0 && old(
                        self,
                    ).failure() is None)
                    &&& final(buf)@.take(n as int) == old(self).pending().take(n as int)
                    &&& final(self).pending() == old(self).pending().skip(n as int)
                },
                Err(error) => {
                    &&& old(self).pending().len() == 0
                    &&& old(self).failure() == Some(error.message@)
                    &&& final(self).pending() == old(self).pending()
                },
            },
    ;
}

/// Why a read from a data provider failed.
#[derive(Debug, PartialEq)]
pub enum DataError {
    /// The source ended before the read was complete.
    EndOfStream,
    /// A string was read that is no well-formed UTF-8.
    Utf8Error,
    /// The source failed.
    IOError(SourceError),
}

/// Whether `error` is what a read reports that ran out of bytes: the
/// source's failure where the source fails, the end of the stream where it
/// ends cleanly.
pub open spec fn ran_out(failure: Option<Seq<char>>, error: DataError) -> bool {
    match failure {
        Some(message) => error is IOError && error->IOError_0.message@ == message,
        None => error == DataError::EndOfStream,
    }
}

/// The place of the first zero byte.
pub open spec fn first_zero(bytes: Seq<u8>) -> Option<int>
    decreases bytes.len(),
{
    if bytes.len() == 0 {
        None
    } else if bytes[0] == 0 {
        Some(0)
    } else {
        match first_zero(bytes.skip(1)) {
            Some(place) => Some(place + 1),
            None => None,
        }
    }
}

/// The first zero byte has no zero byte before it, and where there is no
/// first zero byte there is no zero byte.
pub proof fn lemma_first_zero(bytes: Seq<u8>)
    ensures
        match first_zero(bytes) {
            Some(place) => {
                &&& 0 <= place < bytes.len()
                &&& bytes[place] == 0
                &&& forall|i: int| 0 <= i < place ==> bytes[i] != 0
            },
            None => forall|i: int| 0 <= i < bytes.len() ==> bytes[i] != 0,
        },
    decreases bytes.len(),
{
    if bytes.len() > 0 && bytes[0] != 0 {
        let tail = bytes.skip(1);
        lemma_first_zero(tail);
        match first_zero(tail) {
            Some(place) => {
                assert forall|i: int| 0 <= i < place + 1 implies bytes[i] != 0 by {
                    if i > 0 {
                        assert(tail[i - 1] == bytes[i]);
                    }
                }
            },
            None => {
                assert forall|i: int| 0 <= i < bytes.len() implies bytes[i] != 0 by {
                    if i > 0 {
                        assert(tail[i - 1] == bytes[i]);
                    }
                }
            },
        }
    }
}

/// A zero byte with no zero byte before it is the first zero byte.
pub proof fn lemma_first_zero_at(bytes: Seq<u8>, place: int)
    requires
        0 <= place < bytes.len(),
        bytes[place] == 0,
        forall|i: int| 0 <= i < place ==> bytes[i] != 0,
    ensures
        first_zero(bytes) == Some(place),
{
    lemma_first_zero(bytes);
}

/// The first zero byte of the front is the first zero byte of the whole.
pub proof fn lemma_first_zero_in_front(front: Seq<u8>, rest: Seq<u8>)
    requires
        first_zero(front) is Some,
    ensures
        first_zero(front + rest) == first_zero(front),
{
    lemma_first_zero(front);
    lemma_first_zero_at(front + rest, first_zero(front)->0);
}

/// The number of bytes that a data provider holds in memory at most.
pub const BUFFER_SIZE: usize = 512;

/// The part of a stream that is held in memory: up to 512 bytes, of which
/// those before the cursor are read already.
struct Window {
    buffer: [u8; 512],
    data_pointer: usize,
    data_available: usize,
}

impl Window {
    #[verifier::type_invariant]
    spec fn cursor_in_window(self) -> bool {
        self.data_pointer <= self.data_available <= 512
    }

    /// The bytes that are held and not yet read.
    spec fn unread(&self) -> Seq<u8> {
        self.buffer@.subrange(self.data_pointer as int, self.data_available as int)
    }

    /// A window that holds the first `data_available` bytes of `buffer`.
    fn new(buffer: [u8; 512], data_available: usize) -> (window: Window)
        requires
            data_available <= 512,
        ensures
            window.unread() == buffer@.take(data_available as int),
            window.unread().len() <= BUFFER_SIZE,
    {
        Window { buffer, data_pointer: 0, data_available }
    }

    /// Whether every byte that is held was read.
    fn is_spent(&self) -> (spent: bool)
        ensures
            spent == (self.unread().len() == 0),
            self.unread().len() <= BUFFER_SIZE,
    {
        proof {
            use_type_invariant(self);
        }
        self.data_pointer == self.data_available
    }

    /// Reads the next byte that is held.
    fn take_byte(&mut self) -> (byte: u8)
        requires
            old(self).unread().len() > 0,
        ensures
            byte == old(self).unread()[0],
            final(self).unread() == old(self).unread().skip(1),
            final(self).unread().len() <= BUFFER_SIZE,
    {
        proof {
            use_type_invariant(&*self);
        }
        let byte = self.buffer[self.data_pointer];
        self.data_pointer += 1;
        byte
    }
}

/// The bytes of a source behind a buffer of 512 bytes.
pub struct DataProvider<S: ByteSource + ?Sized> {
    reader: Box<S>,
    window: Window,
}

impl<S: ByteSource + ?Sized> DataProvider<S> {
    /// The bytes that are held in the buffer and yet to be read.
    pub closed spec fn held(&self) -> Seq<u8> {
        self.window.unread()
    }

    /// The bytes that the source has yet to hand out.
    pub closed spec fn ahead(&self) -> Seq<u8> {
        self.reader.pending()
    }

    /// The bytes that are yet to be read: what is held in the buffer, then
    /// what the source has yet to hand out.
    pub open spec fn stream(&self) -> Seq<u8> {
        self.held() + self.ahead()
    }

    /// What the source reports once its bytes are handed out, where it
    /// fails then.
    pub closed spec fn failure(&self) -> Option<Seq<char>> {
        self.reader.failure()
    }

    /// A provider of the bytes of the source.
    pub fn new(reader: Box<S>) -> (provider: DataProvider<S>)
        ensures
            provider.held() == Seq::<u8>::empty(),
            provider.ahead() == reader.pending(),
            provider.failure() == reader.failure(),
    {
        DataProvider { reader, window: Window::new([0;512], 0) }
    }

    /// Reads the next byte, from the buffer or, where that is spent, from
    /// the source.
    fn get_next_byte(&mut self) -> (byte: Result<u8, DataError>)
        ensures
            final(self).failure() == old(self).failure(),
            final(self).held().len() <= BUFFER_SIZE,
            old(self).held().len() > 0 ==> {
                &&& final(self).ahead() == old(self).ahead()
                &&& final(self).held() == old(self).held().skip(1)
            },
            match byte {
                Ok(b) => {
                    &&& old(self).stream().len() > 0
                    &&& b == old(self).stream()[0]
                    &&& final(self).stream() == old(self).stream().skip(1)
                },
                Err(e) => {
                    &&& old(self).stream().len() == 0
                    &&& ran_out(old(self).failure(), e)
                    &&& final(self).stream() == old(self).stream()
                },
            },
    {
        if self.window.is_spent() {
            match self.load_data() {
                Err(err) => return Err(DataError::IOError(err)),
                Ok(size) => {
                    if size == 0 {
                        return Err(DataError::EndOfStream);
                    }
                },
            }
        }
        Ok(self.window.take_byte())
    }

    /// Fills `buffer` with the next bytes.  Where the stream holds fewer
    /// bytes than `buffer` takes, the read fails; the bytes that were left
    /// stand at the front of `buffer`, and the stream is at its end.  The
    /// source is asked for bytes only once the buffer is spent.
    pub fn read_bytes(&mut self, buffer: &mut [u8]) -> (result: Result<(), DataError>)
        ensures
            final(self).failure() == old(self).failure(),
            final(self).held().len() <= BUFFER_SIZE,
            old(buffer)@.len() <= old(self).held().len() ==> final(self).ahead() == old(self).ahead(),
            final(buffer)@.len() == old(buffer)@.len(),
            match result {
                Ok(()) => {
                    &&& old(buffer)@.len() <= old(self).stream().len()
                    &&& final(buffer)@ == old(self).stream().take(old(buffer)@.len() as int)
                    &&& final(self).stream() == old(self).stream().skip(old(buffer)@.len() as int)
                },
                Err(e) => {
                    &&& old(self).stream().len() < old(buffer)@.len()
                    &&& ran_out(old(self).failure(), e)
                    &&& final(buffer)@ == old(self).stream() + old(buffer)@.skip(
                        old(self).stream().len() as int,
                    )
                    &&& final(self).stream() == Seq::<u8>::empty()
                },
            },
    {
        let ghost whole = self.stream();
        let ghost target = buffer@;
        proof {
            use_type_invariant(&self.window);
        }
        let mut i: usize = 0;
        while i < buffer.len()
            invariant
                whole == old(self).stream(),
                target == old(buffer)@,
                i <= buffer@.len(),
                buffer@.len() == target.len(),
                i <= whole.len(),
                self.failure() == old(self).failure(),
                self.held().len() <= BUFFER_SIZE,
                i <= old(self).held().len() ==> self.ahead() == old(self).ahead() && self.held()
                    == old(self).held().skip(i as int),
                self.stream() == whole.skip(i as int),
                buffer@ == whole.take(i as int) + target.skip(i as int),
            decreases buffer@.len() - i,
        {
            match self.get_next_byte() {
                Ok(value) => {
                    buffer[i] = value;
                },
                Err(err) => {
                    return Err(err);
                },
            }
            i += 1;
        }
        Ok(())
    }

    /// Reads the bytes up to the next zero byte, takes the zero byte off the
    /// stream, and hands the bytes back as a string.  Bytes that are no
    /// well-formed UTF-8 are an error, and so is a stream that ends before a
    /// zero byte; the stream is then at its end.  The source is asked for
    /// bytes only once the buffer is spent.
    pub fn read_string(&mut self) -> (result: Result<String, DataError>)
        ensures
            final(self).failure() == old(self).failure(),
            final(self).held().len() <= BUFFER_SIZE,
            first_zero(old(self).held()) is Some ==> final(self).ahead() == old(self).ahead(),
            match first_zero(old(self).stream()) {
                Some(end) => {
                    &&& final(self).stream() == old(self).stream().skip(end + 1)
                    &&& if valid_utf8(old(self).stream().take(end)) {
                        result is Ok && result->Ok_0@ == decode_utf8(old(self).stream().take(end))
                    } else {
                        result == Err::<String, DataError>(DataError::Utf8Error)
                    }
                },
                None => {
                    &&& final(self).stream() == Seq::<u8>::empty()
                    &&& result is Err
                    &&& ran_out(old(self).failure(), result->Err_0)
                },
            },
    {
        let ghost whole = self.stream();
        proof {
            use_type_invariant(&self.window);
            lemma_first_zero(whole);
            if first_zero(self.held()) is Some {
                lemma_first_zero_in_front(self.held(), self.ahead());
            }
        }
        let mut data: Vec<u8> = Vec::new();
        loop
            invariant_except_break
                self.stream() == whole.skip(data@.len() as int),
                data@.len() <= old(self).held().len() ==> {
                    &&& self.ahead() == old(self).ahead()
                    &&& self.held() == old(self).held().skip(data@.len() as int)
                },
            invariant
                whole == old(self).stream(),
                self.failure() == old(self).failure(),
                self.held().len() <= BUFFER_SIZE,
                first_zero(old(self).held()) is Some ==> first_zero(whole) == first_zero(
                    old(self).held(),
                ),
                data@.len() <= whole.len(),
                data@ == whole.take(data@.len() as int),
                forall|i: int| 0 <= i < data@.len() ==> whole[i] != 0,
            ensures
                self.failure() == old(self).failure(),
                self.held().len() <= BUFFER_SIZE,
                data@.len() < old(self).held().len() ==> self.ahead() == old(self).ahead(),
                data@.len() < whole.len() && whole[data@.len() as int] == 0,
                data@ == whole.take(data@.len() as int),
                self.stream() == whole.skip(data@.len() as int + 1),
                forall|i: int| 0 <= i < data@.len() ==> whole[i] != 0,
            decreases whole.len() - data@.len(),
        {
            match self.get_next_byte() {
                Ok(b) => {
                    if b == 0 {
                        break ;
                    }
                    data.push(b);
                },
                Err(err) => {
                    proof {
                        lemma_first_zero(whole);
                    }
                    return Err(err);
                },
            };
        }
        proof {
            lemma_first_zero_at(whole, data@.len() as int);
            lemma_first_zero(old(self).held());
        }
        match string_from_utf8(data) {
            Some(res) => Ok(res),
            None => Err(DataError::Utf8Error),
        }
    }

    /// Asks the source for the next bytes and holds them in place of the
    /// bytes that were held.
    fn load_data(&mut self) -> (count: Result<usize, SourceError>)
        requires
            old(self).window.unread().len() == 0,
        ensures
            final(self).failure() == old(self).failure(),
            final(self).stream() == old(self).stream(),
            match count {
                Ok(n) => {
                    &&& n == final(self).window.unread().len()
                    &&& n == 0 ==> old(self).stream().len() == 0 && old(self).failure() is None
                },
                Err(error) => old(self).stream().len() == 0 && old(self).failure() == Some(
                    error.message@,
                ),
            },
    {
        let mut buffer: [u8; 512] = [0;512];
        match self.reader.read(&mut buffer) {
            Ok(size) => {
                self.window = Window::new(buffer, size);
                Ok(size)
            },
            Err(err) => {
                Err(err)
            },
        }
    }
}

} // verus!

