use std::collections::VecDeque;

use echo_bench::server::{EchoSession, ServerAction};
use echo_bench::wire::{sentinel_payload, Session, Transfer, BUFFER_SIZE};

/// A connection between a client and the echo endpoint: two byte queues and
/// a scheduler that lets either end move a few bytes at a time.
struct Connection {
    upstream: VecDeque<u8>,
    downstream: VecDeque<u8>,
    server: EchoSession,
    server_buffer: Vec<u8>,
    seed: u64,
    steps: usize,
}

impl Connection {
    fn open(session_header: [u8; 8], seed: u64) -> Connection {
        let mut server = EchoSession::accept();
        assert_eq!(server.next(), ServerAction::ReadHeader);
        server.header(&session_header);
        Connection {
            upstream: VecDeque::new(),
            downstream: VecDeque::new(),
            server,
            server_buffer: Vec::new(),
            seed,
            steps: 0,
        }
    }

    fn draw(&mut self, bound: usize) -> usize {
        self.seed = self.seed.wrapping_mul(6364136223846793005).wrapping_add(1442695040888963407);
        1 + (self.seed >> 33) as usize % bound
    }

    /// Lets the endpoint make one move if it can. Returns whether it did.
    fn serve(&mut self) -> bool {
        match self.server.next() {
            ServerAction::Read(limit) => {
                if self.upstream.is_empty() {
                    return false;
                }
                let count = self.draw(limit.min(self.upstream.len()).min(5000));
                self.server_buffer = self.upstream.drain(..count).collect();
                self.server.received(&self.server_buffer);
            }
            ServerAction::Write { from, len } => {
                let count = self.draw(len.min(3000));
                self.downstream.extend(&self.server_buffer[from..from + count]);
                self.server.wrote(count);
            }
            other => panic!("the endpoint gave up: {:?}", other),
        }
        self.steps += 1;
        true
    }

    /// Runs one exchange to its end, the endpoint moving in between.
    fn exchange(&mut self, session: &Session, payload: &[u8]) -> Transfer {
        let mut exchange = session.begin_exchange();
        loop {
            if self.draw(2) == 1 {
                self.serve();
            }
            match exchange.next() {
                Transfer::Write(len) => {
                    let count = self.draw(len.min(7000));
                    self.upstream.extend(&payload[..count]);
                    exchange.wrote(count);
                    self.steps += 1;
                }
                Transfer::Read(len) => {
                    if self.downstream.is_empty() {
                        assert!(self.serve());
                        continue;
                    }
                    let count = self.draw(len.min(self.downstream.len()).min(4000));
                    let chunk: Vec<u8> = self.downstream.drain(..count).collect();
                    exchange.received(&chunk);
                    self.steps += 1;
                }
                done => return done,
            }
        }
    }

    fn is_idle(&self) -> bool {
        self.upstream.is_empty()
            && self.downstream.is_empty()
            && self.server.next() == ServerAction::Read(BUFFER_SIZE)
    }
}

#[test]
fn exchange_against_the_echo_endpoint_succeeds_under_any_schedule() {
    let payload = sentinel_payload(BUFFER_SIZE);
    for size in [1usize, 2, 100, 4096, 65536, 150_000] {
        for seed in 1..=20u64 {
            let (session, header) = Session::negotiate(size);
            let mut connection = Connection::open(header, seed * 7919);
            assert_eq!(connection.server.message_size(), Some(size as u64));
            assert_eq!(connection.exchange(&session, &payload), Transfer::Succeeded);
            assert!(connection.is_idle());
            assert!(connection.steps <= 4 * size);
        }
    }
}

#[test]
fn session_is_reused_by_sixty_four_exchanges() {
    let payload = sentinel_payload(BUFFER_SIZE);
    let (session, header) = Session::negotiate(10_000);
    let mut connection = Connection::open(header, 42);
    for _ in 0..64 {
        assert_eq!(connection.exchange(&session, &payload), Transfer::Succeeded);
        assert!(connection.is_idle());
    }
    assert!(connection.steps <= 64 * 4 * 10_000);
}

#[test]
fn exchange_of_nothing_leaves_the_endpoint_waiting() {
    let (session, header) = Session::negotiate(0);
    let mut connection = Connection::open(header, 1);
    assert_eq!(session.begin_exchange().next(), Transfer::Succeeded);
    assert!(!connection.serve());
    assert!(connection.is_idle());
}
