use echo_bench::error::{ExchangeError, IoFault, Mismatch};
use echo_bench::probe::{elapsed_between, measure};
use echo_bench::wire::{
    first_mismatch, header_size, next_chunk_len, sentinel_payload, size_header, Exchange, Session,
    Transfer, BUFFER_SIZE, HEADER_LEN, SENTINEL,
};

/// An echo target behind a byte stream: what is written comes back, in
/// pieces, optionally damaged or cut short.
struct FakeEcho {
    echoed: Vec<u8>,
    cursor: usize,
    total_written: usize,
    max_write: usize,
    max_read: usize,
    corrupt_at: Option<usize>,
    swallow_last: bool,
}

impl FakeEcho {
    fn faithful(max_write: usize, max_read: usize) -> FakeEcho {
        FakeEcho {
            echoed: Vec::new(),
            cursor: 0,
            total_written: 0,
            max_write,
            max_read,
            corrupt_at: None,
            swallow_last: false,
        }
    }

    fn write(&mut self, bytes: &[u8]) -> usize {
        let taken = bytes.len().min(self.max_write);
        for byte in &bytes[..taken] {
            let position = self.total_written;
            self.total_written += 1;
            if self.corrupt_at == Some(position) {
                self.echoed.push(byte.wrapping_add(1));
            } else {
                self.echoed.push(*byte);
            }
        }
        taken
    }

    fn read(&mut self, limit: usize) -> Vec<u8> {
        let mut available = self.echoed.len() - self.cursor;
        if self.swallow_last && available > 0 {
            available -= 1;
        }
        let count = limit.min(self.max_read).min(available);
        let chunk = self.echoed[self.cursor..self.cursor + count].to_vec();
        self.cursor += count;
        chunk
    }
}

fn run_exchange(
    session: &Session,
    stream: &mut FakeEcho,
) -> (Result<(), ExchangeError>, usize, usize) {
    let buffer = sentinel_payload(BUFFER_SIZE);
    let mut exchange = session.begin_exchange();
    let mut written = 0;
    let mut read = 0;
    loop {
        match exchange.next() {
            Transfer::Write(len) => {
                let count = stream.write(&buffer[..len]);
                written += count;
                exchange.wrote(count);
            }
            Transfer::Read(len) => {
                let chunk = stream.read(len);
                read += chunk.len();
                exchange.received(&chunk);
            }
            Transfer::Succeeded => return (Ok(()), written, read),
            Transfer::Failed(error) => return (Err(error), written, read),
        }
    }
}

#[test]
fn chunk_is_capped_by_the_buffer() {
    assert_eq!(BUFFER_SIZE, 1 << 16);
    assert_eq!(next_chunk_len(0), 0);
    assert_eq!(next_chunk_len(10), 10);
    assert_eq!(next_chunk_len(65536), 65536);
    assert_eq!(next_chunk_len(65537), 65536);
    assert_eq!(next_chunk_len(usize::MAX), 65536);
}

#[test]
fn first_mismatch_finds_the_first_wrong_byte() {
    assert_eq!(first_mismatch(&[]), None);
    assert_eq!(first_mismatch(&[42, 42, 42]), None);
    assert_eq!(first_mismatch(&[42, 7, 42, 9]), Some(1));
    assert_eq!(first_mismatch(&[0]), Some(0));
    assert_eq!(first_mismatch(&[42, 42, 41]), Some(2));
}

#[test]
fn payload_is_all_sentinel() {
    assert_eq!(SENTINEL, 42);
    assert_eq!(sentinel_payload(0), Vec::<u8>::new());
    assert_eq!(sentinel_payload(5), vec![42u8, 42, 42, 42, 42]);
    let large = sentinel_payload(100_000);
    assert_eq!(large.len(), 100_000);
    assert!(large.iter().all(|byte| *byte == 42));
}

#[test]
fn header_is_big_endian() {
    assert_eq!(HEADER_LEN, 8);
    assert_eq!(size_header(0), [0u8; 8]);
    assert_eq!(size_header(1), [0, 0, 0, 0, 0, 0, 0, 1]);
    assert_eq!(size_header(258), [0, 0, 0, 0, 0, 0, 1, 2]);
    assert_eq!(size_header(65536), [0, 0, 0, 0, 0, 1, 0, 0]);
    assert_eq!(size_header(u64::MAX), [255u8; 8]);
    assert_eq!(
        size_header(0x0102_0304_0506_0708),
        [1, 2, 3, 4, 5, 6, 7, 8]
    );
}

#[test]
fn header_agrees_with_the_standard_encoding() {
    let values =
        [0u64, 1, 41, 42, 255, 256, 65535, 65536, 1 << 32, (1 << 40) + 17, u64::MAX - 1, u64::MAX];
    for value in values {
        assert_eq!(size_header(value), value.to_be_bytes());
        assert_eq!(header_size(&value.to_be_bytes()), value);
    }
}

#[test]
fn header_round_trips() {
    let mut value: u64 = 1;
    for _ in 0..200 {
        value = value.wrapping_mul(6364136223846793005).wrapping_add(1442695040888963407);
        assert_eq!(header_size(&size_header(value)), value);
    }
    assert_eq!(header_size(&[0, 0, 0, 0, 0, 0, 1, 2]), 258);
}

#[test]
fn session_announces_its_message_size() {
    let (session, header) = Session::negotiate(4096);
    assert_eq!(session.message_size(), 4096);
    assert_eq!(header, [0, 0, 0, 0, 0, 0, 16, 0]);
    assert_eq!(session.begin_exchange().next(), Transfer::Write(4096));
}

#[test]
fn exchange_walks_through_write_and_read() {
    let mut exchange = Exchange::begin(5);
    assert_eq!(exchange.next(), Transfer::Write(5));
    exchange.wrote(2);
    assert_eq!(exchange.next(), Transfer::Write(3));
    exchange.wrote(3);
    assert_eq!(exchange.next(), Transfer::Read(5));
    exchange.received(&[42, 42, 42, 42]);
    assert_eq!(exchange.next(), Transfer::Read(1));
    exchange.received(&[42]);
    assert_eq!(exchange.next(), Transfer::Succeeded);
}

#[test]
fn exchange_of_nothing_succeeds_at_once() {
    let exchange = Exchange::begin(0);
    assert_eq!(exchange.next(), Transfer::Succeeded);
}

#[test]
fn large_exchange_moves_in_buffer_sized_pieces() {
    let mut exchange = Exchange::begin(BUFFER_SIZE * 2 + 10);
    assert_eq!(exchange.next(), Transfer::Write(BUFFER_SIZE));
    exchange.wrote(BUFFER_SIZE);
    assert_eq!(exchange.next(), Transfer::Write(BUFFER_SIZE));
    exchange.wrote(BUFFER_SIZE);
    assert_eq!(exchange.next(), Transfer::Write(10));
    exchange.wrote(10);
    assert_eq!(exchange.next(), Transfer::Read(BUFFER_SIZE));
}

#[test]
fn faithful_echo_passes_for_every_size() {
    let sizes = [1usize, 2, 3, 7, 64, 1000, 65535, 65536, 65537, 200_000];
    let limits = [(usize::MAX, usize::MAX), (1, 1), (3, 5), (4096, 1000), (70_000, 70_000)];
    for size in sizes {
        for (max_write, max_read) in limits {
            if size > 70_000 && max_write == 1 {
                continue;
            }
            let (session, _) = Session::negotiate(size);
            let mut stream = FakeEcho::faithful(max_write, max_read);
            let (outcome, written, read) = run_exchange(&session, &mut stream);
            assert_eq!(outcome, Ok(()));
            assert_eq!(written, size);
            assert_eq!(read, size);
            assert!(measure(5, 9, outcome).is_ok());
        }
    }
}

#[test]
fn one_wrong_byte_fails_verification() {
    for size in [1usize, 2, 10, 70_000] {
        for position in [0, size / 2, size - 1] {
            let (session, _) = Session::negotiate(size);
            let mut stream = FakeEcho::faithful(usize::MAX, 4096);
            stream.corrupt_at = Some(position);
            let (outcome, _, _) = run_exchange(&session, &mut stream);
            assert_eq!(
                outcome,
                Err(ExchangeError::Verification(Mismatch::WrongByte {
                    offset: position,
                    found: 43
                }))
            );
        }
    }
}

#[test]
fn one_byte_short_fails_with_io_error() {
    for size in [1usize, 2, 10, 70_000] {
        let (session, _) = Session::negotiate(size);
        let mut stream = FakeEcho::faithful(usize::MAX, 4096);
        stream.swallow_last = true;
        let (outcome, written, read) = run_exchange(&session, &mut stream);
        assert_eq!(outcome, Err(ExchangeError::Io(IoFault::EndOfStream)));
        assert_eq!(written, size);
        assert_eq!(read, size - 1);
    }
}

#[test]
fn stalled_write_is_an_io_error() {
    let mut exchange = Exchange::begin(4);
    exchange.wrote(0);
    assert_eq!(exchange.next(), Transfer::Failed(ExchangeError::Io(IoFault::WriteStalled)));
}

#[test]
fn transport_that_moves_too_much_is_an_io_error() {
    let mut writing = Exchange::begin(4);
    writing.wrote(5);
    assert_eq!(writing.next(), Transfer::Failed(ExchangeError::Io(IoFault::Overrun)));

    let mut reading = Exchange::begin(2);
    reading.wrote(2);
    reading.received(&[42, 42, 42]);
    assert_eq!(reading.next(), Transfer::Failed(ExchangeError::Io(IoFault::Overrun)));
}

#[test]
fn results_nobody_asked_for_fail_the_exchange() {
    let mut early_read = Exchange::begin(2);
    early_read.received(&[42]);
    assert_eq!(early_read.next(), Transfer::Failed(ExchangeError::Io(IoFault::OutOfTurn)));

    let mut late_write = Exchange::begin(1);
    late_write.wrote(1);
    late_write.wrote(1);
    assert_eq!(late_write.next(), Transfer::Failed(ExchangeError::Io(IoFault::OutOfTurn)));

    let mut after_success = Exchange::begin(1);
    after_success.wrote(1);
    after_success.received(&[42]);
    assert_eq!(after_success.next(), Transfer::Succeeded);
    after_success.received(&[42]);
    assert_eq!(after_success.next(), Transfer::Failed(ExchangeError::Io(IoFault::OutOfTurn)));
}

#[test]
fn broken_transport_fails_the_exchange_and_the_failure_sticks() {
    let mut exchange = Exchange::begin(3);
    exchange.wrote(1);
    exchange.io_failed();
    assert_eq!(exchange.next(), Transfer::Failed(ExchangeError::Io(IoFault::Broken)));
    exchange.wrote(2);
    exchange.received(&[42, 42, 42]);
    exchange.io_failed();
    assert_eq!(exchange.next(), Transfer::Failed(ExchangeError::Io(IoFault::Broken)));
}

#[test]
fn wrong_byte_offset_counts_from_the_start_of_the_response() {
    let mut exchange = Exchange::begin(6);
    exchange.wrote(6);
    exchange.received(&[42, 42, 42]);
    exchange.received(&[42, 0, 42]);
    assert_eq!(
        exchange.next(),
        Transfer::Failed(ExchangeError::Verification(Mismatch::WrongByte { offset: 4, found: 0 }))
    );
}

#[test]
fn sixty_four_exchanges_share_one_session() {
    let (session, _) = Session::negotiate(3000);
    let mut stream = FakeEcho::faithful(700, 1300);
    for _ in 0..64 {
        let (outcome, written, read) = run_exchange(&session, &mut stream);
        assert_eq!(outcome, Ok(()));
        assert_eq!(written, 3000);
        assert_eq!(read, 3000);
    }
    assert_eq!(stream.total_written, 64 * 3000);
    assert_eq!(stream.cursor, 64 * 3000);
}

#[test]
fn interleaved_exchanges_on_one_stream_each_get_their_own_bytes() {
    let buffer = sentinel_payload(BUFFER_SIZE);
    let mut stream = FakeEcho::faithful(500, 300);
    let mut exchanges: Vec<Exchange> = (0..64).map(|_| Exchange::begin(1000)).collect();
    let mut finished = 0;
    while finished < exchanges.len() {
        finished = 0;
        for exchange in exchanges.iter_mut() {
            match exchange.next() {
                Transfer::Write(len) => {
                    let count = stream.write(&buffer[..len]);
                    exchange.wrote(count);
                }
                Transfer::Read(len) => {
                    let chunk = stream.read(len);
                    if !chunk.is_empty() {
                        exchange.received(&chunk);
                    }
                }
                Transfer::Succeeded => finished += 1,
                Transfer::Failed(error) => panic!("exchange failed: {:?}", error),
            }
        }
    }
    assert_eq!(stream.total_written, 64 * 1000);
    assert_eq!(stream.cursor, 64 * 1000);
}

#[test]
fn probe_returns_elapsed_time_or_the_error() {
    assert_eq!(elapsed_between(100, 350), 250);
    assert_eq!(elapsed_between(7, 7), 0);
    assert_eq!(elapsed_between(9, 3), 0);
    assert_eq!(measure(1_000, 11_000_000, Ok(())), Ok(10_999_000));
    let error = ExchangeError::Verification(Mismatch::WrongByte { offset: 3, found: 9 });
    assert_eq!(measure(1_000, 2_000, Err(error)), Err(error));
    assert_eq!(
        measure(0, 1, Err(ExchangeError::Io(IoFault::Broken))),
        Err(ExchangeError::Io(IoFault::Broken))
    );
}
