//! The memcached text protocol as a session that owns two byte buffers: the
//! requests it has framed and not yet handed to the transport, and the reply
//! bytes that the transport has delivered and that no reader has consumed.
//!
//! Each command is two calls. The request call checks the arguments and
//! appends the framed request to `out`; nothing is queued when it fails. The
//! matching reply call reads one complete reply from the front of `inp`: it
//! returns `None`, and leaves `inp` alone, while the reply is still
//! incomplete; otherwise it consumes the reply and returns its outcome.
use vstd::prelude::*;
use vstd::string::StringSliceAdditionalSpecFns;

use crate::error::{
    error_of_line, is_error_line, is_memcache_error, raises, text_of, ClientError, CommandError,
    Fault, MemcacheError, lossy_text, exists_reply, not_found_reply,
};
use crate::text::{
    bytes_equal, copy_range, decimal, fields, is_digit, is_prefix, lemma_decimal_is_digits,
    lemma_fields_last, lemma_fields_step, lemma_find_first, line_body, line_len, line_len_at,
    parse_u64, parsed_u64, push_all, push_decimal, split_fields, starts_with, trim_line, CR, LF,
    SPACE,
};

verus! {

/// The longest key, in bytes, that the protocol accepts.
pub const MAX_KEY_LEN: usize = 250;

/// The storage commands of the text protocol.
#[derive(Debug, Clone, Copy, PartialEq, Eq)]
pub enum StoreCommand {
    Cas,
    SetValue,
    Add,
    Replace,
    Append,
    Prepend,
}

/// The modifiers of a storage command.
#[derive(Debug, Clone, Copy, PartialEq, Eq)]
pub struct Options {
    pub noreply: bool,
    pub exptime: u32,
    pub flags: u32,
    pub cas: Option<u64>,
}

impl Default for Options {
    fn default() -> (r: Self)
        ensures
            r == (Options { noreply: false, exptime: 0, flags: 0, cas: None }),
    {
        Options { noreply: false, exptime: 0, flags: 0, cas: None }
    }
}

/// One value that a retrieval reply carried.
#[derive(Debug, Clone, PartialEq, Eq)]
pub struct Item {
    pub key: Vec<u8>,
    pub value: Vec<u8>,
    pub flags: u32,
    /// The cas token, present in replies to `gets`.
    pub cas: Option<u64>,
}

impl View for Item {
    type V = (Seq<u8>, Seq<u8>, u32, Option<u64>);

    open spec fn view(&self) -> Self::V {
        (self.key@, self.value@, self.flags, self.cas)
    }
}

/// A text protocol session.
pub struct AsciiProtocol {
    /// Framed requests that the transport has not taken yet.
    pub out: Vec<u8>,
    /// Reply bytes that the transport delivered and no reader consumed yet.
    pub inp: Vec<u8>,
    /// The transport carries datagrams, over which multi-key `gets` is refused.
    pub datagram: bool,
}

pub open spec fn crlf() -> Seq<u8> {
    seq![CR, LF]
}

pub open spec fn sp() -> Seq<u8> {
    seq![SPACE]
}

pub open spec fn command_name(c: StoreCommand) -> Seq<u8> {
    match c {
        StoreCommand::Cas => "cas".spec_bytes(),
        StoreCommand::SetValue => "set".spec_bytes(),
        StoreCommand::Add => "add".spec_bytes(),
        StoreCommand::Replace => "replace".spec_bytes(),
        StoreCommand::Append => "append".spec_bytes(),
        StoreCommand::Prepend => "prepend".spec_bytes(),
    }
}

/// `<cmd> <key> <flags> <exptime> <bytes>[ <cas>][ noreply]\r\n<value>\r\n`
pub open spec fn store_request(c: StoreCommand, key: Seq<u8>, value: Seq<u8>, o: Options) -> Seq<
    u8,
> {
    command_name(c) + sp() + key + sp() + decimal(o.flags as nat) + sp() + decimal(
        o.exptime as nat,
    ) + sp() + decimal(value.len()) + (if c == StoreCommand::Cas && o.cas is Some {
        sp() + decimal(o.cas.unwrap() as nat)
    } else {
        Seq::empty()
    }) + (if o.noreply {
        " noreply".spec_bytes()
    } else {
        Seq::empty()
    }) + crlf() + value + crlf()
}

/// A request of one word and one key: `<word> <key>\r\n`.
pub open spec fn key_request(word: Seq<u8>, key: Seq<u8>) -> Seq<u8> {
    word + sp() + key + crlf()
}

/// A request of one word, one key and one number: `<word> <key> <n>\r\n`.
pub open spec fn key_number_request(word: Seq<u8>, key: Seq<u8>, n: nat) -> Seq<u8> {
    word + sp() + key + sp() + decimal(n) + crlf()
}

/// Each key with a space before it.
pub open spec fn spaced_keys(keys: Seq<Seq<u8>>) -> Seq<u8>
    decreases keys.len(),
{
    if keys.len() == 0 {
        Seq::empty()
    } else {
        spaced_keys(keys.drop_last()) + sp() + keys.last()
    }
}

/// `gets <k1> <k2> ...\r\n`
pub open spec fn gets_request(keys: Seq<Seq<u8>>) -> Seq<u8> {
    "gets".spec_bytes() + spaced_keys(keys) + crlf()
}

pub open spec fn keys_bytes(keys: Seq<&str>) -> Seq<Seq<u8>> {
    keys.map_values(|k: &str| k.spec_bytes())
}

/// What a request call did: it left the reply buffer alone, and either queued
/// `req` and succeeded, or queued nothing and failed.
pub open spec fn queued(
    before: AsciiProtocol,
    after: AsciiProtocol,
    r: Result<(), MemcacheError>,
    req: Seq<u8>,
) -> bool {
    &&& after.inp@ == before.inp@
    &&& after.datagram == before.datagram
    &&& match r {
        Ok(_) => after.out@ == before.out@ + req,
        Err(_) => after.out@ == before.out@,
    }
}

/// A request call for a key: it fails with `KeyTooLong`, queueing nothing,
/// exactly when the key is over the limit, and queues `req` otherwise.
pub open spec fn queued_for_key(
    before: AsciiProtocol,
    after: AsciiProtocol,
    r: Result<(), MemcacheError>,
    key: Seq<u8>,
    req: Seq<u8>,
) -> bool {
    &&& queued(before, after, r, req)
    &&& if key.len() > MAX_KEY_LEN {
        r == Err::<(), MemcacheError>(MemcacheError::ClientError(ClientError::KeyTooLong))
    } else {
        r is Ok
    }
}

/// The outcome of a storage request.
pub open spec fn store_queued(
    before: AsciiProtocol,
    after: AsciiProtocol,
    r: Result<(), MemcacheError>,
    c: StoreCommand,
    key: Seq<u8>,
    value: Seq<u8>,
    o: Options,
) -> bool {
    &&& queued(before, after, r, store_request(c, key, value, o))
    &&& if key.len() > MAX_KEY_LEN {
        r == Err::<(), MemcacheError>(MemcacheError::ClientError(ClientError::KeyTooLong))
    } else if c == StoreCommand::Cas && o.cas is None {
        r matches Err(MemcacheError::ClientError(ClientError::Error(m)))
            && m@ == "cas command should have a casid"@
    } else {
        r is Ok
    }
}

fn command_word(c: StoreCommand) -> (r: &'static [u8])
    ensures
        r@ == command_name(c),
{
    match c {
        StoreCommand::Cas => "cas".as_bytes(),
        StoreCommand::SetValue => "set".as_bytes(),
        StoreCommand::Add => "add".as_bytes(),
        StoreCommand::Replace => "replace".as_bytes(),
        StoreCommand::Append => "append".as_bytes(),
        StoreCommand::Prepend => "prepend".as_bytes(),
    }
}

fn push_crlf(out: &mut Vec<u8>)
    ensures
        final(out)@ == old(out)@ + crlf(),
{
    out.push(CR);
    out.push(LF);
    assert(out@ =~= old(out)@ + crlf());
}

fn push_space(out: &mut Vec<u8>)
    ensures
        final(out)@ == old(out)@ + sp(),
{
    out.push(SPACE);
    assert(out@ =~= old(out)@ + sp());
}

fn key_too_long() -> (r: MemcacheError)
    ensures
        r == MemcacheError::ClientError(ClientError::KeyTooLong),
{
    MemcacheError::ClientError(ClientError::KeyTooLong)
}

impl AsciiProtocol {
    /// A session with nothing queued and nothing received.
    pub fn new(datagram: bool) -> (r: AsciiProtocol)
        ensures
            r.out@ == Seq::<u8>::empty(),
            r.inp@ == Seq::<u8>::empty(),
            r.datagram == datagram,
    {
        AsciiProtocol { out: Vec::new(), inp: Vec::new(), datagram }
    }

    /// Hands the queued requests to the transport.
    pub fn take_output(&mut self) -> (r: Vec<u8>)
        ensures
            r@ == old(self).out@,
            final(self).out@ == Seq::<u8>::empty(),
            final(self).inp@ == old(self).inp@,
            final(self).datagram == old(self).datagram,
    {
        let mut r: Vec<u8> = Vec::new();
        std::mem::swap(&mut r, &mut self.out);
        r
    }

    /// Takes bytes that the transport delivered.
    pub fn receive(&mut self, bytes: &[u8])
        ensures
            final(self).inp@ == old(self).inp@ + bytes@,
            final(self).out@ == old(self).out@,
            final(self).datagram == old(self).datagram,
    {
        push_all(&mut self.inp, bytes);
    }

    fn queue(&mut self, req: &Vec<u8>)
        ensures
            final(self).out@ == old(self).out@ + req@,
            final(self).inp@ == old(self).inp@,
            final(self).datagram == old(self).datagram,
    {
        push_all(&mut self.out, req.as_slice());
    }

    /// Queues a storage command for `key` with `value`.
    pub fn store(&mut self, command: StoreCommand, key: &str, value: &[u8], options: &Options) -> (r:
        Result<(), MemcacheError>)
        ensures
            store_queued(*old(self), *final(self), r, command, key.spec_bytes(), value@, *options),
    {
        if key.as_bytes().len() > MAX_KEY_LEN {
            return Err(key_too_long());
        }
        let is_cas = match command {
            StoreCommand::Cas => true,
            _ => false,
        };
        if is_cas && options.cas.is_none() {
            return Err(
                MemcacheError::ClientError(
                    ClientError::Error("cas command should have a casid".to_owned()),
                ),
            );
        }
        let mut req: Vec<u8> = Vec::new();
        push_all(&mut req, command_word(command));
        push_space(&mut req);
        push_all(&mut req, key.as_bytes());
        push_space(&mut req);
        push_decimal(&mut req, options.flags as u64);
        push_space(&mut req);
        push_decimal(&mut req, options.exptime as u64);
        push_space(&mut req);
        push_decimal(&mut req, value.len() as u64);
        assert(value.len() as u64 as nat == value@.len());
        let ghost head = req@;
        if is_cas {
            push_space(&mut req);
            match options.cas {
                Some(c) => push_decimal(&mut req, c),
                None => {},
            }
        }
        let ghost with_cas = req@;
        if options.noreply {
            push_all(&mut req, " noreply".as_bytes());
        }
        let ghost with_noreply = req@;
        push_crlf(&mut req);
        push_all(&mut req, value);
        push_crlf(&mut req);
        proof {
            let o = *options;
            let cas_part = if command == StoreCommand::Cas && o.cas is Some {
                sp() + decimal(o.cas.unwrap() as nat)
            } else {
                Seq::empty()
            };
            let noreply_part = if o.noreply {
                " noreply".spec_bytes()
            } else {
                Seq::empty()
            };
            assert(with_cas =~= head + cas_part);
            assert(with_noreply =~= head + cas_part + noreply_part);
            assert(req@ =~= store_request(command, key.spec_bytes(), value@, o));
        }
        self.queue(&req);
        Ok(())
    }

    /// Queues `set`: store `value` under `key` whatever was there.
    pub fn set(&mut self, key: &str, value: &[u8], flags: u32, expiration: u32) -> (r: Result<
        (),
        MemcacheError,
    >)
        ensures
            store_queued(
                *old(self),
                *final(self),
                r,
                StoreCommand::SetValue,
                key.spec_bytes(),
                value@,
                Options { noreply: false, exptime: expiration, flags, cas: None },
            ),
    {
        let options = Options { noreply: false, exptime: expiration, flags, cas: None };
        self.store(StoreCommand::SetValue, key, value, &options)
    }

    /// Queues `add`: store only where `key` holds nothing.
    pub fn add(&mut self, key: &str, value: &[u8], flags: u32, expiration: u32) -> (r: Result<
        (),
        MemcacheError,
    >)
        ensures
            store_queued(
                *old(self),
                *final(self),
                r,
                StoreCommand::Add,
                key.spec_bytes(),
                value@,
                Options { noreply: false, exptime: expiration, flags, cas: None },
            ),
    {
        let options = Options { noreply: false, exptime: expiration, flags, cas: None };
        self.store(StoreCommand::Add, key, value, &options)
    }

    /// Queues `replace`: store only where `key` holds a value.
    pub fn replace(&mut self, key: &str, value: &[u8], flags: u32, expiration: u32) -> (r: Result<
        (),
        MemcacheError,
    >)
        ensures
            store_queued(
                *old(self),
                *final(self),
                r,
                StoreCommand::Replace,
                key.spec_bytes(),
                value@,
                Options { noreply: false, exptime: expiration, flags, cas: None },
            ),
    {
        let options = Options { noreply: false, exptime: expiration, flags, cas: None };
        self.store(StoreCommand::Replace, key, value, &options)
    }

    /// Queues `append`: add `value` after the bytes that `key` holds.
    pub fn append(&mut self, key: &str, value: &[u8]) -> (r: Result<(), MemcacheError>)
        ensures
            store_queued(
                *old(self),
                *final(self),
                r,
                StoreCommand::Append,
                key.spec_bytes(),
                value@,
                Options { noreply: false, exptime: 0, flags: 0, cas: None },
            ),
    {
        let options = Options::default();
        self.store(StoreCommand::Append, key, value, &options)
    }

    /// Queues `prepend`: add `value` before the bytes that `key` holds.
    pub fn prepend(&mut self, key: &str, value: &[u8]) -> (r: Result<(), MemcacheError>)
        ensures
            store_queued(
                *old(self),
                *final(self),
                r,
                StoreCommand::Prepend,
                key.spec_bytes(),
                value@,
                Options { noreply: false, exptime: 0, flags: 0, cas: None },
            ),
    {
        let options = Options::default();
        self.store(StoreCommand::Prepend, key, value, &options)
    }

    /// Queues `cas`: store only where the item's cas token is still `cas`.
    pub fn cas(&mut self, key: &str, value: &[u8], flags: u32, expiration: u32, cas: u64) -> (r:
        Result<(), MemcacheError>)
        ensures
            store_queued(
                *old(self),
                *final(self),
                r,
                StoreCommand::Cas,
                key.spec_bytes(),
                value@,
                Options { noreply: false, exptime: expiration, flags, cas: Some(cas) },
            ),
    {
        let options = Options { noreply: false, exptime: expiration, flags, cas: Some(cas) };
        self.store(StoreCommand::Cas, key, value, &options)
    }

    /// Queues the credentials as the text protocol carries them: a `set` of
    /// the key `auth` to `<username> <password>`.
    pub fn auth(&mut self, username: &str, password: &str) -> (r: Result<(), MemcacheError>)
        ensures
            queued(
                *old(self),
                *final(self),
                r,
                store_request(
                    StoreCommand::SetValue,
                    "auth".spec_bytes(),
                    username.spec_bytes() + sp() + password.spec_bytes(),
                    Options { noreply: false, exptime: 0, flags: 0, cas: None },
                ),
            ),
            r is Ok,
    {
        let mut credentials: Vec<u8> = Vec::new();
        push_all(&mut credentials, username.as_bytes());
        push_space(&mut credentials);
        push_all(&mut credentials, password.as_bytes());
        proof {
            reveal_strlit("auth");
            vstd::string::is_ascii_spec_bytes("auth");
        }
        self.set("auth", credentials.as_slice(), 0, 0)
    }

    fn key_command(&mut self, word: &[u8], key: &str) -> (r: Result<(), MemcacheError>)
        ensures
            queued_for_key(*old(self), *final(self), r, key.spec_bytes(), key_request(word@, key.spec_bytes())),
    {
        if key.as_bytes().len() > MAX_KEY_LEN {
            return Err(key_too_long());
        }
        let mut req: Vec<u8> = Vec::new();
        push_all(&mut req, word);
        push_space(&mut req);
        push_all(&mut req, key.as_bytes());
        push_crlf(&mut req);
        assert(req@ =~= key_request(word@, key.spec_bytes()));
        self.queue(&req);
        Ok(())
    }

    fn key_number_command(&mut self, word: &[u8], key: &str, n: u64) -> (r: Result<(), MemcacheError>)
        ensures
            queued_for_key(*old(self), *final(self), r, key.spec_bytes(), key_number_request(word@, key.spec_bytes(), n as nat)),
    {
        if key.as_bytes().len() > MAX_KEY_LEN {
            return Err(key_too_long());
        }
        let mut req: Vec<u8> = Vec::new();
        push_all(&mut req, word);
        push_space(&mut req);
        push_all(&mut req, key.as_bytes());
        push_space(&mut req);
        push_decimal(&mut req, n);
        push_crlf(&mut req);
        assert(req@ =~= key_number_request(word@, key.spec_bytes(), n as nat));
        self.queue(&req);
        Ok(())
    }

    fn plain_command(&mut self, line: &[u8]) -> (r: Result<(), MemcacheError>)
        ensures
            queued(*old(self), *final(self), r, line@),
            r is Ok,
    {
        let mut req: Vec<u8> = Vec::new();
        push_all(&mut req, line);
        self.queue(&req);
        Ok(())
    }

    /// Queues `get <key>`.
    pub fn get(&mut self, key: &str) -> (r: Result<(), MemcacheError>)
        ensures
            queued_for_key(*old(self), *final(self), r, key.spec_bytes(), key_request("get".spec_bytes(), key.spec_bytes())),
    {
        self.key_command("get".as_bytes(), key)
    }

    /// Queues `gets` for all of `keys`. It fails with `KeyTooLong` where any key
    /// is over the limit, and with a client error over a datagram transport.
    pub fn gets(&mut self, keys: &[&str]) -> (r: Result<(), MemcacheError>)
        ensures
            queued(*old(self), *final(self), r, gets_request(keys_bytes(keys@))),
            old(self).datagram ==> r matches Err(MemcacheError::ClientError(ClientError::Error(_))),
            !old(self).datagram ==> (r is Ok <==> forall|i: int|
                0 <= i < keys@.len() ==> (#[trigger] keys@[i]).spec_bytes().len() <= MAX_KEY_LEN),
            !old(self).datagram && r is Err ==> r == Err::<(), MemcacheError>(
                MemcacheError::ClientError(ClientError::KeyTooLong),
            ),
    {
        if self.datagram {
            return Err(
                MemcacheError::ClientError(
                    ClientError::Error("gets is not supported over datagrams".to_owned()),
                ),
            );
        }
        let mut req: Vec<u8> = Vec::new();
        push_all(&mut req, "gets".as_bytes());
        let mut i: usize = 0;
        while i < keys.len()
            invariant
                i <= keys@.len(),
                req@ == "gets".spec_bytes() + spaced_keys(keys_bytes(keys@).take(i as int)),
                forall|j: int| 0 <= j < i ==> (#[trigger] keys@[j]).spec_bytes().len() <= MAX_KEY_LEN,
                !self.datagram,
                self.out@ == old(self).out@,
                self.inp@ == old(self).inp@,
            decreases keys@.len() - i,
        {
            let key = keys[i];
            if key.as_bytes().len() > MAX_KEY_LEN {
                return Err(key_too_long());
            }
            push_space(&mut req);
            push_all(&mut req, key.as_bytes());
            proof {
                let ks = keys_bytes(keys@);
                assert(ks.take(i as int + 1).drop_last() =~= ks.take(i as int));
            }
            i = i + 1;
        }
        push_crlf(&mut req);
        assert(keys_bytes(keys@).take(keys@.len() as int) =~= keys_bytes(keys@));
        self.queue(&req);
        Ok(())
    }

    /// Queues `delete <key>`.
    pub fn delete(&mut self, key: &str) -> (r: Result<(), MemcacheError>)
        ensures
            queued_for_key(*old(self), *final(self), r, key.spec_bytes(), key_request("delete".spec_bytes(), key.spec_bytes())),
    {
        self.key_command("delete".as_bytes(), key)
    }

    /// Queues `incr <key> <amount>`.
    pub fn increment(&mut self, key: &str, amount: u64) -> (r: Result<(), MemcacheError>)
        ensures
            queued_for_key(*old(self), *final(self), r, key.spec_bytes(), key_number_request("incr".spec_bytes(), key.spec_bytes(), amount as nat)),
    {
        self.key_number_command("incr".as_bytes(), key, amount)
    }

    /// Queues `decr <key> <amount>`.
    pub fn decrement(&mut self, key: &str, amount: u64) -> (r: Result<(), MemcacheError>)
        ensures
            queued_for_key(*old(self), *final(self), r, key.spec_bytes(), key_number_request("decr".spec_bytes(), key.spec_bytes(), amount as nat)),
    {
        self.key_number_command("decr".as_bytes(), key, amount)
    }

    /// Queues `touch <key> <expiration>`.
    pub fn touch(&mut self, key: &str, expiration: u32) -> (r: Result<(), MemcacheError>)
        ensures
            queued_for_key(*old(self), *final(self), r, key.spec_bytes(), key_number_request("touch".spec_bytes(), key.spec_bytes(), expiration as nat)),
    {
        self.key_number_command("touch".as_bytes(), key, expiration as u64)
    }

    /// Queues `version`.
    pub fn version(&mut self) -> (r: Result<(), MemcacheError>)
        ensures
            queued(*old(self), *final(self), r, "version\r\n".spec_bytes()),
            r is Ok,
    {
        self.plain_command("version\r\n".as_bytes())
    }

    /// Queues `flush_all`.
    pub fn flush(&mut self) -> (r: Result<(), MemcacheError>)
        ensures
            queued(*old(self), *final(self), r, "flush_all\r\n".spec_bytes()),
            r is Ok,
    {
        self.plain_command("flush_all\r\n".as_bytes())
    }

    /// Queues `flush_all <delay>`.
    pub fn flush_with_delay(&mut self, delay: u32) -> (r: Result<(), MemcacheError>)
        ensures
            queued(*old(self), *final(self), r, "flush_all".spec_bytes() + sp() + decimal(delay as nat) + crlf()),
            r is Ok,
    {
        let mut req: Vec<u8> = Vec::new();
        push_all(&mut req, "flush_all".as_bytes());
        push_space(&mut req);
        push_decimal(&mut req, delay as u64);
        push_crlf(&mut req);
        self.queue(&req);
        Ok(())
    }

    /// Queues `stats`.
    pub fn stats(&mut self) -> (r: Result<(), MemcacheError>)
        ensures
            queued(*old(self), *final(self), r, "stats\r\n".spec_bytes()),
            r is Ok,
    {
        self.plain_command("stats\r\n".as_bytes())
    }
}

pub open spec fn stored_reply() -> Seq<u8> {
    "STORED\r\n".spec_bytes()
}

pub open spec fn not_stored_reply() -> Seq<u8> {
    "NOT_STORED\r\n".spec_bytes()
}

/// What a reply line to `set`, `add`, `replace`, `append` or `prepend` means.
pub open spec fn store_outcome(line: Seq<u8>) -> Result<bool, Fault> {
    if is_error_line(line) {
        Err(Fault::ErrorLine(line))
    } else if line == stored_reply() {
        Ok(true)
    } else if line == not_stored_reply() {
        Ok(false)
    } else if line == exists_reply() {
        Err(Fault::Status(CommandError::KeyExists))
    } else if line == not_found_reply() {
        Err(Fault::Status(CommandError::KeyNotFound))
    } else {
        Err(Fault::Malformed(line))
    }
}

/// What a reply line to `add` or `replace` means: the server refusing to
/// store (`NOT_STORED`) is the error `refused`, which is `KeyExists` for
/// `add` and `KeyNotFound` for `replace`.
pub open spec fn conditional_outcome(refused: CommandError, line: Seq<u8>) -> Result<(), Fault> {
    if is_error_line(line) {
        Err(Fault::ErrorLine(line))
    } else if line == stored_reply() {
        Ok(())
    } else if line == not_stored_reply() {
        Err(Fault::Status(refused))
    } else if line == exists_reply() {
        Err(Fault::Status(CommandError::KeyExists))
    } else if line == not_found_reply() {
        Err(Fault::Status(CommandError::KeyNotFound))
    } else {
        Err(Fault::Malformed(line))
    }
}

/// What a reply line to `cas` means: a changed or missing item is `false`,
/// never an error.
pub open spec fn cas_outcome(line: Seq<u8>) -> Result<bool, Fault> {
    if is_error_line(line) {
        Err(Fault::ErrorLine(line))
    } else if line == stored_reply() {
        Ok(true)
    } else if line == not_stored_reply() || line == exists_reply() || line == not_found_reply() {
        Ok(false)
    } else {
        Err(Fault::Malformed(line))
    }
}

/// What a reply line means where `yes` answers true and `NOT_FOUND` false.
pub open spec fn found_outcome(yes: Seq<u8>, line: Seq<u8>) -> Result<bool, Fault> {
    if is_error_line(line) {
        Err(Fault::ErrorLine(line))
    } else if line == yes {
        Ok(true)
    } else if line == not_found_reply() {
        Ok(false)
    } else {
        Err(Fault::Malformed(line))
    }
}

/// What a reply line to `flush_all` means.
pub open spec fn ok_outcome(line: Seq<u8>) -> Result<(), Fault> {
    if is_error_line(line) {
        Err(Fault::ErrorLine(line))
    } else if line == "OK\r\n".spec_bytes() {
        Ok(())
    } else {
        Err(Fault::Malformed(line))
    }
}

/// What a reply line to `incr` or `decr` means: the counter's new value.
pub open spec fn counter_outcome(line: Seq<u8>) -> Result<u64, Fault> {
    if is_error_line(line) {
        Err(Fault::ErrorLine(line))
    } else if line == not_found_reply() {
        Err(Fault::Status(CommandError::KeyNotFound))
    } else if parsed_u64(line_body(line)) is Some {
        Ok(parsed_u64(line_body(line)).unwrap())
    } else {
        Err(Fault::Malformed(line))
    }
}

/// What a reply line to `version` means: the text after `VERSION `.
pub open spec fn version_outcome(line: Seq<u8>) -> Result<Seq<char>, Fault> {
    if is_error_line(line) {
        Err(Fault::ErrorLine(line))
    } else if is_prefix("VERSION ".spec_bytes(), line) {
        Ok(lossy_text(line_body(line).skip(8)))
    } else {
        Err(Fault::Malformed(line))
    }
}

/// `res` is the outcome `o`, an error standing for its fault.
pub open spec fn outcome_is<T: View>(res: Result<T, MemcacheError>, o: Result<T::V, Fault>) -> bool {
    match o {
        Ok(v) => res matches Ok(x) && x@ == v,
        Err(f) => res matches Err(e) && raises(e, f),
    }
}

/// A reply call for a one-line reply: `None` with nothing consumed while the
/// line is incomplete, else the line consumed and its outcome returned.
pub open spec fn line_reply<T: View>(
    before: AsciiProtocol,
    after: AsciiProtocol,
    r: Option<Result<T, MemcacheError>>,
    outcome: spec_fn(Seq<u8>) -> Result<T::V, Fault>,
) -> bool {
    &&& after.out@ == before.out@
    &&& after.datagram == before.datagram
    &&& match line_len_at(before.inp@, 0) {
        None => r is None && after.inp@ == before.inp@,
        Some(n) => r matches Some(res) && outcome_is(res, outcome(before.inp@.take(n as int)))
            && after.inp@ == before.inp@.skip(n as int),
    }
}

pub open spec fn parsed_u32(s: Seq<u8>) -> Option<u32> {
    if parsed_u64(s) is Some && parsed_u64(s).unwrap() <= u32::MAX {
        Some(parsed_u64(s).unwrap() as u32)
    } else {
        None
    }
}

pub open spec fn parsed_usize(s: Seq<u8>) -> Option<usize> {
    if parsed_u64(s) is Some && parsed_u64(s).unwrap() <= usize::MAX {
        Some(parsed_u64(s).unwrap() as usize)
    } else {
        None
    }
}

/// The value block whose header line starts at `off`, and where it ends:
/// `VALUE <key> <flags> <bytes>[ <cas>]\r\n<data>\r\n`. `None` while it is
/// incomplete. Where `expect` is given the key must be that one.
pub open spec fn block_at(s: Seq<u8>, off: nat, with_cas: bool, expect: Option<Seq<u8>>) -> Option<
    (Result<(Seq<u8>, Seq<u8>, u32, Option<u64>), Fault>, nat),
> {
    match line_len_at(s, off) {
        None => None,
        Some(n) => {
            let line = s.subrange(off as int, (off + n) as int);
            let f = fields(line_body(line));
            let p = off + n;
            if !is_prefix("VALUE".spec_bytes(), line) || f.len() != (if with_cas {
                5nat
            } else {
                4nat
            }) || (expect is Some && f[1] != expect.unwrap()) {
                Some((Err(Fault::Malformed(line)), p))
            } else if parsed_u32(f[2]) is None || parsed_usize(f[3]) is None || (with_cas
                && parsed_u64(f[4]) is None) {
                Some((Err(Fault::BadNumber), p))
            } else {
                let len = parsed_usize(f[3]).unwrap() as nat;
                let e = p + len;
                if s.len() < e + 2 {
                    None
                } else if s[e as int] != CR || s[(e + 1) as int] != LF {
                    Some((Err(Fault::Malformed(s.subrange(e as int, (e + 2) as int))), e + 2))
                } else {
                    Some(
                        (
                            Ok(
                                (
                                    f[1],
                                    s.subrange(p as int, e as int),
                                    parsed_u32(f[2]).unwrap(),
                                    if with_cas {
                                        Some(parsed_u64(f[4]).unwrap())
                                    } else {
                                        None
                                    },
                                ),
                            ),
                            e + 2,
                        ),
                    )
                }
            }
        },
    }
}

pub open spec fn end_line() -> Seq<u8> {
    "END\r\n".spec_bytes()
}

/// The reply to `get <key>` at the front of `s`: nothing (`END`), or one
/// value block followed by `END`; and the number of bytes it takes.
pub open spec fn get_reply_at(key: Seq<u8>, s: Seq<u8>) -> Option<
    (Result<Option<(Seq<u8>, Seq<u8>, u32, Option<u64>)>, Fault>, nat),
> {
    match line_len_at(s, 0) {
        None => None,
        Some(n) => {
            let line = s.take(n as int);
            if is_error_line(line) {
                Some((Err(Fault::ErrorLine(line)), n))
            } else if is_prefix("END".spec_bytes(), line) {
                Some((Ok(None), n))
            } else {
                match block_at(s, 0, false, Some(key)) {
                    None => None,
                    Some((Err(f), m)) => Some((Err(f), m)),
                    Some((Ok(item), m)) => match line_len_at(s, m) {
                        None => None,
                        Some(n2) => {
                            let last = s.subrange(m as int, (m + n2) as int);
                            if last == end_line() {
                                Some((Ok(Some(item)), m + n2))
                            } else {
                                Some((Err(Fault::Malformed(last)), m + n2))
                            }
                        },
                    },
                }
            }
        },
    }
}

/// Puts `acc` in front of the items of a multi-line reply.
pub open spec fn prepend<A>(acc: Seq<A>, r: Option<(Result<Seq<A>, Fault>, nat)>) -> Option<
    (Result<Seq<A>, Fault>, nat),
> {
    match r {
        None => None,
        Some((Ok(xs), m)) => Some((Ok(acc + xs), m)),
        Some((Err(f), m)) => Some((Err(f), m)),
    }
}

/// The reply to `gets` from `off` on: value blocks with cas tokens, then
/// `END`; and where it ends.
pub open spec fn gets_reply_from(s: Seq<u8>, off: nat) -> Option<
    (Result<Seq<(Seq<u8>, Seq<u8>, u32, Option<u64>)>, Fault>, nat),
>
    decreases s.len() - off via gets_reply_from_decreases
{
    match line_len_at(s, off) {
        None => None,
        Some(n) => {
            let line = s.subrange(off as int, (off + n) as int);
            if is_error_line(line) {
                Some((Err(Fault::ErrorLine(line)), off + n))
            } else if is_prefix("END".spec_bytes(), line) {
                Some((Ok(Seq::empty()), off + n))
            } else {
                match block_at(s, off, true, None) {
                    None => None,
                    Some((Err(f), m)) => Some((Err(f), m)),
                    Some((Ok(item), m)) => prepend(seq![item], gets_reply_from(s, m)),
                }
            }
        },
    }
}

#[via_fn]
proof fn gets_reply_from_decreases(s: Seq<u8>, off: nat) {
    lemma_block_advances(s, off, true, None);
}

/// A stat line's name and value: `STAT <name> <value>`, the value being all
/// of the line body after the second space.
pub open spec fn stat_of(body: Seq<u8>) -> Option<(Seq<u8>, Seq<u8>)> {
    match crate::text::find_from(body, SPACE, 0) {
        None => None,
        Some(k1) => match crate::text::find_from(body, SPACE, k1 + 1) {
            None => None,
            Some(k2) => Some(
                (body.subrange((k1 + 1) as int, k2 as int), body.subrange((k2 + 1) as int, body.len() as int)),
            ),
        },
    }
}

/// The reply to `stats` from `off` on: `STAT` lines, then `END`.
pub open spec fn stats_reply_from(s: Seq<u8>, off: nat) -> Option<
    (Result<Seq<(Seq<u8>, Seq<u8>)>, Fault>, nat),
>
    decreases s.len() - off via stats_reply_from_decreases
{
    match line_len_at(s, off) {
        None => None,
        Some(n) => {
            let line = s.subrange(off as int, (off + n) as int);
            if is_error_line(line) {
                Some((Err(Fault::ErrorLine(line)), off + n))
            } else if is_prefix("END".spec_bytes(), line) {
                Some((Ok(Seq::empty()), off + n))
            } else if !is_prefix("STAT".spec_bytes(), line) || stat_of(line_body(line)) is None {
                Some((Err(Fault::Malformed(line)), off + n))
            } else {
                prepend(seq![stat_of(line_body(line)).unwrap()], stats_reply_from(s, off + n))
            }
        },
    }
}

#[via_fn]
proof fn stats_reply_from_decreases(s: Seq<u8>, off: nat) {
    lemma_line_len_positive(s, off);
}

pub proof fn lemma_line_len_positive(s: Seq<u8>, off: nat)
    ensures
        match line_len_at(s, off) {
            Some(n) => n >= 1 && off + n <= s.len(),
            None => true,
        },
{
    crate::text::lemma_find_from_bounds(s, LF, off);
}

pub proof fn lemma_block_advances(s: Seq<u8>, off: nat, with_cas: bool, expect: Option<Seq<u8>>)
    ensures
        match block_at(s, off, with_cas, expect) {
            Some((_, m)) => off < m <= s.len(),
            None => true,
        },
{
    lemma_line_len_positive(s, off);
}

pub open spec fn bytes_of(o: Option<&[u8]>) -> Option<Seq<u8>> {
    match o {
        Some(k) => Some(k@),
        None => None,
    }
}

fn malformed(line: &[u8]) -> (e: MemcacheError)
    ensures
        raises(e, Fault::Malformed(line@)),
{
    MemcacheError::ServerError(crate::error::ServerError::BadResponse(text_of(line)))
}

fn bad_number() -> (e: MemcacheError)
    ensures
        raises(e, Fault::BadNumber),
{
    MemcacheError::ParseError(crate::error::ParseError::Int)
}

fn read_block(s: &[u8], off: usize, with_cas: bool, expect: Option<&[u8]>) -> (r: Option<
    (Result<Item, MemcacheError>, usize),
>)
    ensures
        match block_at(s@, off as nat, with_cas, bytes_of(expect)) {
            None => r is None,
            Some((o, m)) => r matches Some((res, m2)) && m2 == m && outcome_is(res, o),
        },
{
    proof { lemma_block_advances(s@, off as nat, with_cas, bytes_of(expect)); }
    let n = match line_len(s, off) {
        None => return None,
        Some(n) => n,
    };
    let line = copy_range(s, off, off + n);
    let p = off + n;
    let body = trim_line(line.as_slice());
    let f = split_fields(body.as_slice());
    let ghost fv = f@.map_values(|v: Vec<u8>| v@);
    assert(fv =~= fields(line_body(line@)));
    let want: usize = if with_cas { 5 } else { 4 };
    if !starts_with(line.as_slice(), "VALUE".as_bytes()) || f.len() != want {
        return Some((Err(malformed(line.as_slice())), p));
    }
    assert(f@[1]@ == fv[1]);
    assert(f@[2]@ == fv[2]);
    assert(f@[3]@ == fv[3]);
    match expect {
        Some(k) => {
            if !bytes_equal(f[1].as_slice(), k) {
                return Some((Err(malformed(line.as_slice())), p));
            }
        },
        None => {},
    }
    let flags = match parse_u64(f[2].as_slice()) {
        Some(v) => {
            if v > u32::MAX as u64 {
                return Some((Err(bad_number()), p));
            }
            v as u32
        },
        None => return Some((Err(bad_number()), p)),
    };
    let len = match parse_u64(f[3].as_slice()) {
        Some(v) => {
            if v > usize::MAX as u64 {
                return Some((Err(bad_number()), p));
            }
            v as usize
        },
        None => return Some((Err(bad_number()), p)),
    };
    let cas = if with_cas {
        assert(f@[4]@ == fv[4]);
        match parse_u64(f[4].as_slice()) {
            Some(v) => Some(v),
            None => return Some((Err(bad_number()), p)),
        }
    } else {
        None
    };
    if s.len() - p < len || s.len() - p - len < 2 {
        return None;
    }
    let e = p + len;
    if s[e] != CR || s[e + 1] != LF {
        let tail = copy_range(s, e, e + 2);
        return Some((Err(malformed(tail.as_slice())), e + 2));
    }
    let value = copy_range(s, p, e);
    let key = copy_range(f[1].as_slice(), 0, f[1].len());
    proof {
        assert(f@[1]@.subrange(0, f@[1]@.len() as int) =~= f@[1]@);
    }
    Some((Ok(Item { key, value, flags, cas }), e + 2))
}

fn parse_get(s: &[u8], key: &[u8]) -> (r: Option<(Result<Option<Item>, MemcacheError>, usize)>)
    ensures
        match get_reply_at(key@, s@) {
            None => r is None,
            Some((o, m)) => r matches Some((res, m2)) && m2 == m && m <= s@.len() && match o {
                Ok(None) => res matches Ok(None),
                Ok(Some(v)) => res matches Ok(Some(item)) && item@ == v,
                Err(f) => res matches Err(e) && raises(e, f),
            },
        },
{
    proof { lemma_line_len_positive(s@, 0); }
    let n = match line_len(s, 0) {
        None => return None,
        Some(n) => n,
    };
    let line = copy_range(s, 0, n);
    assert(line@ == s@.take(n as int));
    if is_memcache_error(line.as_slice()) {
        return Some((Err(error_of_line(line.as_slice())), n));
    }
    if starts_with(line.as_slice(), "END".as_bytes()) {
        return Some((Ok(None), n));
    }
    proof { lemma_block_advances(s@, 0, false, Some(key@)); }
    match read_block(s, 0, false, Some(key)) {
        None => None,
        Some((Err(e), m)) => Some((Err(e), m)),
        Some((Ok(item), m)) => {
            proof { lemma_line_len_positive(s@, m as nat); }
            match line_len(s, m) {
                None => None,
                Some(n2) => {
                    let last = copy_range(s, m, m + n2);
                    if bytes_equal(last.as_slice(), "END\r\n".as_bytes()) {
                        Some((Ok(Some(item)), m + n2))
                    } else {
                        Some((Err(malformed(last.as_slice())), m + n2))
                    }
                },
            }
        },
    }
}

fn parse_gets(s: &[u8]) -> (r: Option<(Result<Vec<Item>, MemcacheError>, usize)>)
    ensures
        match gets_reply_from(s@, 0) {
            None => r is None,
            Some((o, m)) => r matches Some((res, m2)) && m2 == m && m <= s@.len() && match o {
                Ok(xs) => res matches Ok(v) && v@.map_values(|i: Item| i@) == xs,
                Err(f) => res matches Err(e) && raises(e, f),
            },
        },
{
    let mut items: Vec<Item> = Vec::new();
    let mut off: usize = 0;
    loop
        invariant
            off <= s@.len(),
            gets_reply_from(s@, 0) == prepend(
                items@.map_values(|i: Item| i@),
                gets_reply_from(s@, off as nat),
            ),
        decreases s@.len() - off,
    {
        proof { lemma_line_len_positive(s@, off as nat); }
        let n = match line_len(s, off) {
            None => return None,
            Some(n) => n,
        };
        let line = copy_range(s, off, off + n);
        if is_memcache_error(line.as_slice()) {
            return Some((Err(error_of_line(line.as_slice())), off + n));
        }
        if starts_with(line.as_slice(), "END".as_bytes()) {
            assert(items@.map_values(|i: Item| i@) + Seq::empty() =~= items@.map_values(
                |i: Item| i@,
            ));
            return Some((Ok(items), off + n));
        }
        proof { lemma_block_advances(s@, off as nat, true, None); }
        match read_block(s, off, true, None) {
            None => return None,
            Some((Err(e), m)) => return Some((Err(e), m)),
            Some((Ok(item), m)) => {
                let ghost acc = items@.map_values(|i: Item| i@);
                let ghost iv = item@;
                items.push(item);
                proof {
                    assert(items@.map_values(|i: Item| i@) =~= acc.push(iv));
                    match gets_reply_from(s@, m as nat) {
                        Some((Ok(xs), _)) => {
                            assert(acc + (seq![iv] + xs) =~= acc.push(iv) + xs);
                        },
                        _ => {},
                    }
                }
                off = m;
            },
        }
    }
}

fn parse_stats(s: &[u8]) -> (r: Option<(Result<Vec<(Vec<u8>, Vec<u8>)>, MemcacheError>, usize)>)
    ensures
        match stats_reply_from(s@, 0) {
            None => r is None,
            Some((o, m)) => r matches Some((res, m2)) && m2 == m && m <= s@.len() && match o {
                Ok(xs) => res matches Ok(v) && v@.map_values(|p: (Vec<u8>, Vec<u8>)| p@) == xs,
                Err(f) => res matches Err(e) && raises(e, f),
            },
        },
{
    let mut stats: Vec<(Vec<u8>, Vec<u8>)> = Vec::new();
    let mut off: usize = 0;
    loop
        invariant
            off <= s@.len(),
            stats_reply_from(s@, 0) == prepend(
                stats@.map_values(|p: (Vec<u8>, Vec<u8>)| p@),
                stats_reply_from(s@, off as nat),
            ),
        decreases s@.len() - off,
    {
        proof { lemma_line_len_positive(s@, off as nat); }
        let n = match line_len(s, off) {
            None => return None,
            Some(n) => n,
        };
        let line = copy_range(s, off, off + n);
        if is_memcache_error(line.as_slice()) {
            return Some((Err(error_of_line(line.as_slice())), off + n));
        }
        if starts_with(line.as_slice(), "END".as_bytes()) {
            assert(stats@.map_values(|p: (Vec<u8>, Vec<u8>)| p@) + Seq::empty() =~= stats@.map_values(
                |p: (Vec<u8>, Vec<u8>)| p@,
            ));
            return Some((Ok(stats), off + n));
        }
        if !starts_with(line.as_slice(), "STAT".as_bytes()) {
            return Some((Err(malformed(line.as_slice())), off + n));
        }
        let body = trim_line(line.as_slice());
        let k1 = match crate::text::find_byte(body.as_slice(), SPACE, 0) {
            None => return Some((Err(malformed(line.as_slice())), off + n)),
            Some(k) => k,
        };
        proof { crate::text::lemma_find_from_bounds(body@, SPACE, 0); }
        let k2 = match crate::text::find_byte(body.as_slice(), SPACE, k1 + 1) {
            None => return Some((Err(malformed(line.as_slice())), off + n)),
            Some(k) => k,
        };
        proof { crate::text::lemma_find_from_bounds(body@, SPACE, (k1 + 1) as nat); }
        let name = copy_range(body.as_slice(), k1 + 1, k2);
        let value = copy_range(body.as_slice(), k2 + 1, body.len());
        let ghost acc = stats@.map_values(|p: (Vec<u8>, Vec<u8>)| p@);
        let ghost sv = (name@, value@);
        stats.push((name, value));
        proof {
            assert(stats@.map_values(|p: (Vec<u8>, Vec<u8>)| p@) =~= acc.push(sv));
            match stats_reply_from(s@, (off + n) as nat) {
                Some((Ok(xs), _)) => {
                    assert(acc + (seq![sv] + xs) =~= acc.push(sv) + xs);
                },
                _ => {},
            }
        }
        off = off + n;
    }
}

impl AsciiProtocol {
    fn consume(&mut self, n: usize)
        requires
            n <= old(self).inp@.len(),
        ensures
            final(self).inp@ == old(self).inp@.skip(n as int),
            final(self).out@ == old(self).out@,
            final(self).datagram == old(self).datagram,
    {
        let rest = copy_range(self.inp.as_slice(), n, self.inp.len());
        self.inp = rest;
    }

    fn next_line(&mut self) -> (r: Option<Vec<u8>>)
        ensures
            final(self).out@ == old(self).out@,
            final(self).datagram == old(self).datagram,
            match line_len_at(old(self).inp@, 0) {
                None => r is None && final(self).inp@ == old(self).inp@,
                Some(n) => r matches Some(l) && l@ == old(self).inp@.take(n as int)
                    && final(self).inp@ == old(self).inp@.skip(n as int) && l@.len() >= 1
                    && l@.last() == LF,
            },
    {
        match line_len(self.inp.as_slice(), 0) {
            None => None,
            Some(n) => {
                let line = copy_range(self.inp.as_slice(), 0, n);
                self.consume(n);
                Some(line)
            },
        }
    }

    /// Reads the reply to `set`, `append` or `prepend` (and to the `set` that
    /// carries credentials): `false` where the server did not store.
    pub fn store_reply(&mut self) -> (r: Option<Result<bool, MemcacheError>>)
        ensures
            line_reply(*old(self), *final(self), r, |l: Seq<u8>| store_outcome(l)),
    {
        let line = match self.next_line() {
            None => return None,
            Some(line) => line,
        };
        let l = line.as_slice();
        Some(
            if is_memcache_error(l) {
                Err(error_of_line(l))
            } else if bytes_equal(l, "STORED\r\n".as_bytes()) {
                Ok(true)
            } else if bytes_equal(l, "NOT_STORED\r\n".as_bytes()) {
                Ok(false)
            } else if bytes_equal(l, "EXISTS\r\n".as_bytes()) {
                Err(MemcacheError::CommandError(CommandError::KeyExists))
            } else if bytes_equal(l, "NOT_FOUND\r\n".as_bytes()) {
                Err(MemcacheError::CommandError(CommandError::KeyNotFound))
            } else {
                Err(malformed(l))
            },
        )
    }

    fn conditional_reply(&mut self, refused: CommandError) -> (r: Option<Result<(), MemcacheError>>)
        ensures
            line_reply(*old(self), *final(self), r, |l: Seq<u8>| conditional_outcome(refused, l)),
    {
        let line = match self.next_line() {
            None => return None,
            Some(line) => line,
        };
        let l = line.as_slice();
        Some(
            if is_memcache_error(l) {
                Err(error_of_line(l))
            } else if bytes_equal(l, "STORED\r\n".as_bytes()) {
                Ok(())
            } else if bytes_equal(l, "NOT_STORED\r\n".as_bytes()) {
                Err(MemcacheError::CommandError(refused))
            } else if bytes_equal(l, "EXISTS\r\n".as_bytes()) {
                Err(MemcacheError::CommandError(CommandError::KeyExists))
            } else if bytes_equal(l, "NOT_FOUND\r\n".as_bytes()) {
                Err(MemcacheError::CommandError(CommandError::KeyNotFound))
            } else {
                Err(malformed(l))
            },
        )
    }

    /// Reads the reply to `add`: a key that already holds a value fails with
    /// `KeyExists`.
    pub fn add_reply(&mut self) -> (r: Option<Result<(), MemcacheError>>)
        ensures
            line_reply(
                *old(self),
                *final(self),
                r,
                |l: Seq<u8>| conditional_outcome(CommandError::KeyExists, l),
            ),
    {
        self.conditional_reply(CommandError::KeyExists)
    }

    /// Reads the reply to `replace`: a key that holds nothing fails with
    /// `KeyNotFound`.
    pub fn replace_reply(&mut self) -> (r: Option<Result<(), MemcacheError>>)
        ensures
            line_reply(
                *old(self),
                *final(self),
                r,
                |l: Seq<u8>| conditional_outcome(CommandError::KeyNotFound, l),
            ),
    {
        self.conditional_reply(CommandError::KeyNotFound)
    }

    /// Reads the reply to `cas`: `true` where the value was stored, `false`
    /// where the item changed since its token was read, or is missing.
    pub fn cas_reply(&mut self) -> (r: Option<Result<bool, MemcacheError>>)
        ensures
            line_reply(*old(self), *final(self), r, |l: Seq<u8>| cas_outcome(l)),
    {
        let line = match self.next_line() {
            None => return None,
            Some(line) => line,
        };
        let l = line.as_slice();
        Some(
            if is_memcache_error(l) {
                Err(error_of_line(l))
            } else if bytes_equal(l, "STORED\r\n".as_bytes()) {
                Ok(true)
            } else if bytes_equal(l, "NOT_STORED\r\n".as_bytes()) || bytes_equal(
                l,
                "EXISTS\r\n".as_bytes(),
            ) || bytes_equal(l, "NOT_FOUND\r\n".as_bytes()) {
                Ok(false)
            } else {
                Err(malformed(l))
            },
        )
    }

    fn found_reply(&mut self, yes: &[u8]) -> (r: Option<Result<bool, MemcacheError>>)
        ensures
            line_reply(*old(self), *final(self), r, |l: Seq<u8>| found_outcome(yes@, l)),
    {
        let line = match self.next_line() {
            None => return None,
            Some(line) => line,
        };
        let l = line.as_slice();
        Some(
            if is_memcache_error(l) {
                Err(error_of_line(l))
            } else if bytes_equal(l, yes) {
                Ok(true)
            } else if bytes_equal(l, "NOT_FOUND\r\n".as_bytes()) {
                Ok(false)
            } else {
                Err(malformed(l))
            },
        )
    }

    /// Reads the reply to `delete`: `true` where the key was deleted, `false`
    /// where it was missing.
    pub fn delete_reply(&mut self) -> (r: Option<Result<bool, MemcacheError>>)
        ensures
            line_reply(
                *old(self),
                *final(self),
                r,
                |l: Seq<u8>| found_outcome("DELETED\r\n".spec_bytes(), l),
            ),
    {
        self.found_reply("DELETED\r\n".as_bytes())
    }

    /// Reads the reply to `touch`: `true` where the key's expiration was
    /// updated, `false` where it was missing.
    pub fn touch_reply(&mut self) -> (r: Option<Result<bool, MemcacheError>>)
        ensures
            line_reply(
                *old(self),
                *final(self),
                r,
                |l: Seq<u8>| found_outcome("TOUCHED\r\n".spec_bytes(), l),
            ),
    {
        self.found_reply("TOUCHED\r\n".as_bytes())
    }

    /// Reads the reply to `flush_all`.
    pub fn ok_reply(&mut self) -> (r: Option<Result<(), MemcacheError>>)
        ensures
            line_reply(*old(self), *final(self), r, |l: Seq<u8>| ok_outcome(l)),
    {
        let line = match self.next_line() {
            None => return None,
            Some(line) => line,
        };
        let l = line.as_slice();
        Some(
            if is_memcache_error(l) {
                Err(error_of_line(l))
            } else if bytes_equal(l, "OK\r\n".as_bytes()) {
                Ok(())
            } else {
                Err(malformed(l))
            },
        )
    }

    /// Reads the reply to `incr` or `decr`: the counter's new value.
    pub fn counter_reply(&mut self) -> (r: Option<Result<u64, MemcacheError>>)
        ensures
            line_reply(*old(self), *final(self), r, |l: Seq<u8>| counter_outcome(l)),
    {
        let line = match self.next_line() {
            None => return None,
            Some(line) => line,
        };
        let l = line.as_slice();
        if is_memcache_error(l) {
            return Some(Err(error_of_line(l)));
        }
        if bytes_equal(l, "NOT_FOUND\r\n".as_bytes()) {
            return Some(Err(MemcacheError::CommandError(CommandError::KeyNotFound)));
        }
        let body = trim_line(l);
        match parse_u64(body.as_slice()) {
            Some(n) => Some(Ok(n)),
            None => Some(Err(malformed(l))),
        }
    }

    /// Reads the reply to `version`: the server's version text.
    pub fn version_reply(&mut self) -> (r: Option<Result<String, MemcacheError>>)
        ensures
            line_reply(*old(self), *final(self), r, |l: Seq<u8>| version_outcome(l)),
    {
        let line = match self.next_line() {
            None => return None,
            Some(line) => line,
        };
        let l = line.as_slice();
        if is_memcache_error(l) {
            return Some(Err(error_of_line(l)));
        }
        if !starts_with(l, "VERSION ".as_bytes()) {
            return Some(Err(malformed(l)));
        }
        let body = trim_line(l);
        proof {
            reveal_strlit("VERSION ");
            vstd::string::is_ascii_spec_bytes("VERSION ");
            let pre = "VERSION ".spec_bytes();
            assert(pre.len() == 8);
            assert(l@.take(8) == pre);
            assert(l@[7] == pre[7]);
            assert(l@[7] == SPACE);
            assert(body@.len() >= 8);
        }
        let version = copy_range(body.as_slice(), 8, body.len());
        Some(Ok(text_of(version.as_slice())))
    }

    /// Reads the reply to `get <key>`: `None` inside where the key is missing,
    /// else its value and flags.
    pub fn get_reply(&mut self, key: &str) -> (r: Option<Result<Option<Item>, MemcacheError>>)
        ensures
            final(self).out@ == old(self).out@,
            final(self).datagram == old(self).datagram,
            match get_reply_at(key.spec_bytes(), old(self).inp@) {
                None => r is None && final(self).inp@ == old(self).inp@,
                Some((o, m)) => r matches Some(res) && final(self).inp@ == old(self).inp@.skip(
                    m as int,
                ) && match o {
                    Ok(None) => res matches Ok(None),
                    Ok(Some(v)) => res matches Ok(Some(item)) && item@ == v,
                    Err(f) => res matches Err(e) && raises(e, f),
                },
            },
    {
        match parse_get(self.inp.as_slice(), key.as_bytes()) {
            None => None,
            Some((res, m)) => {
                self.consume(m);
                Some(res)
            },
        }
    }

    /// Reads the reply to `gets`: the items found, each with its cas token, in
    /// the order in which the server sent them.
    pub fn gets_reply(&mut self) -> (r: Option<Result<Vec<Item>, MemcacheError>>)
        ensures
            final(self).out@ == old(self).out@,
            final(self).datagram == old(self).datagram,
            match gets_reply_from(old(self).inp@, 0) {
                None => r is None && final(self).inp@ == old(self).inp@,
                Some((o, m)) => r matches Some(res) && final(self).inp@ == old(self).inp@.skip(
                    m as int,
                ) && match o {
                    Ok(xs) => res matches Ok(v) && v@.map_values(|i: Item| i@) == xs,
                    Err(f) => res matches Err(e) && raises(e, f),
                },
            },
    {
        match parse_gets(self.inp.as_slice()) {
            None => None,
            Some((res, m)) => {
                self.consume(m);
                Some(res)
            },
        }
    }

    /// Reads the reply to `stats`: each statistic's name and value.
    pub fn stats_reply(&mut self) -> (r: Option<Result<Vec<(Vec<u8>, Vec<u8>)>, MemcacheError>>)
        ensures
            final(self).out@ == old(self).out@,
            final(self).datagram == old(self).datagram,
            match stats_reply_from(old(self).inp@, 0) {
                None => r is None && final(self).inp@ == old(self).inp@,
                Some((o, m)) => r matches Some(res) && final(self).inp@ == old(self).inp@.skip(
                    m as int,
                ) && match o {
                    Ok(xs) => res matches Ok(v) && v@.map_values(|p: (Vec<u8>, Vec<u8>)| p@)
                        == xs,
                    Err(f) => res matches Err(e) && raises(e, f),
                },
            },
    {
        match parse_stats(self.inp.as_slice()) {
            None => None,
            Some((res, m)) => {
                self.consume(m);
                Some(res)
            },
        }
    }
}

/// A key as the text protocol carries it: no space, carriage return or line
/// feed inside.
pub open spec fn plain_key(key: Seq<u8>) -> bool {
    forall|i: int| 0 <= i < key.len() ==> key[i] != SPACE && key[i] != CR && key[i] != LF
}

/// The header line of a value block without its terminator.
pub open spec fn value_header(key: Seq<u8>, value: Seq<u8>, flags: u32) -> Seq<u8> {
    "VALUE".spec_bytes() + sp() + key + sp() + decimal(flags as nat) + sp() + decimal(value.len())
}

/// The reply that a server gives to `get <key>` where `key` holds `value`
/// stored with `flags`.
pub open spec fn value_reply(key: Seq<u8>, value: Seq<u8>, flags: u32) -> Seq<u8> {
    value_header(key, value, flags) + crlf() + value + crlf() + end_line()
}

proof fn lemma_ascii(s: &str)
    requires
        vstd::string::is_ascii(s),
    ensures
        s.spec_bytes().len() == s@.len(),
        forall|i: int| 0 <= i < s@.len() ==> #[trigger] s.spec_bytes()[i] == s@[i] as u8,
{
    vstd::string::is_ascii_spec_bytes(s);
}

/// The facts about a value block's header line that reading it needs.
#[verifier::spinoff_prover]
#[verifier::rlimit(60)]
proof fn lemma_value_header(key: Seq<u8>, value: Seq<u8>, flags: u32)
    requires
        plain_key(key),
        value.len() <= usize::MAX,
    ensures
        ({
            let b = value_header(key, value, flags);
            let h = b + crlf();
            &&& forall|j: int| 0 <= j < h.len() - 1 ==> h[j] != LF
            &&& h[h.len() - 1] == LF
            &&& line_body(h) == b
            &&& fields(b) == seq![
                "VALUE".spec_bytes(),
                key,
                decimal(flags as nat),
                decimal(value.len()),
            ]
            &&& is_prefix("VALUE".spec_bytes(), h)
            &&& !is_error_line(h)
            &&& !is_prefix("END".spec_bytes(), h)
            &&& parsed_u32(decimal(flags as nat)) == Some(flags)
            &&& parsed_usize(decimal(value.len())) == Some(value.len() as usize)
        }),
{
    reveal_strlit("VALUE");
    reveal_strlit("END");
    reveal_strlit("ERROR\r\n");
    reveal_strlit("CLIENT_ERROR");
    reveal_strlit("SERVER_ERROR");
    lemma_ascii("VALUE");
    lemma_ascii("END");
    lemma_ascii("ERROR\r\n");
    lemma_ascii("CLIENT_ERROR");
    lemma_ascii("SERVER_ERROR");
    let vb = "VALUE".spec_bytes();
    let df = decimal(flags as nat);
    let dl = decimal(value.len());
    lemma_decimal_is_digits(flags as nat);
    lemma_decimal_is_digits(value.len());
    let b = value_header(key, value, flags);
    let h = b + crlf();
    let kl = key.len() as int;
    let fl = df.len() as int;
    assert(b.len() == 8 + kl + fl + dl.len());
    assert forall|j: int| 0 <= j < b.len() implies b[j] != LF && b[j] != CR && (b[j] == SPACE
        <==> (j == 5 || j == 6 + kl || j == 7 + kl + fl)) by {
        if j < 5 {
            assert(b[j] == vb[j]);
        } else if j == 5 {
        } else if j < 6 + kl {
            assert(b[j] == key[j - 6]);
        } else if j == 6 + kl {
        } else if j < 7 + kl + fl {
            assert(b[j] == df[j - 7 - kl]);
            assert(is_digit(df[j - 7 - kl]));
        } else if j == 7 + kl + fl {
        } else {
            assert(b[j] == dl[j - 8 - kl - fl]);
            assert(is_digit(dl[j - 8 - kl - fl]));
        }
    }
    assert forall|j: int| 0 <= j < h.len() - 1 implies h[j] != LF by {
        if j < b.len() {
            assert(h[j] == b[j]);
        }
    }
    assert(line_body(h) =~= b);
    lemma_fields_step(b, 0, 5);
    lemma_fields_step(b, 6, (6 + kl) as nat);
    lemma_fields_step(b, (7 + kl) as nat, (7 + kl + fl) as nat);
    lemma_fields_last(b, (8 + kl + fl) as nat);
    assert(b.subrange(0, 5) =~= vb);
    assert(b.subrange(6, 6 + kl) =~= key);
    assert(b.subrange(7 + kl, 7 + kl + fl) =~= df);
    assert(b.subrange(8 + kl + fl, b.len() as int) =~= dl);
    assert(fields(b) =~= seq![vb, key, df, dl]);
    assert(h.take(5) =~= vb);
    assert(h[0] == 86);
    assert(!is_error_line(h)) by {
        if h == crate::error::error_reply() {
            assert(crate::error::error_reply()[0] == 69);
        }
        if is_prefix(crate::error::client_error_prefix(), h) {
            assert(h.take(12)[0] == 67);
        }
        if is_prefix(crate::error::server_error_prefix(), h) {
            assert(h.take(12)[0] == 83);
        }
    }
    assert(!is_prefix("END".spec_bytes(), h)) by {
        if is_prefix("END".spec_bytes(), h) {
            assert(h.take(3)[0] == 69);
        }
    }
}

/// A stored value reads back unchanged: the reply that a server gives to
/// `get` for a key holding `value` with `flags` (the bytes and flags that
/// `set` sent) is read as exactly that value and those flags, and whatever
/// follows the reply stays in the buffer for the next reader.
pub proof fn lemma_get_round_trip(key: Seq<u8>, value: Seq<u8>, flags: u32, rest: Seq<u8>)
    requires
        plain_key(key),
        value.len() <= usize::MAX,
    ensures
        get_reply_at(key, value_reply(key, value, flags) + rest) == Some(
            (
                Ok::<Option<(Seq<u8>, Seq<u8>, u32, Option<u64>)>, Fault>(
                    Some((key, value, flags, None)),
                ),
                value_reply(key, value, flags).len(),
            ),
        ),
{
    reveal_strlit("END\r\n");
    lemma_ascii("END\r\n");
    lemma_value_header(key, value, flags);
    let b = value_header(key, value, flags);
    let h = b + crlf();
    let reply = value_reply(key, value, flags);
    let s = reply + rest;
    let hl = h.len() as int;
    assert(s.subrange(0, hl) =~= h);
    assert(s.take(hl) =~= h);
    assert forall|j: int| 0 <= j < hl - 1 implies s[j] != LF by {
        assert(s[j] == h[j]);
    }
    lemma_find_first(s, LF, 0, (hl - 1) as nat);
    assert(line_len_at(s, 0) == Some(hl as nat));
    let e = hl + value.len() as int;
    assert(s.subrange(hl, e) =~= value);
    assert(s[e] == CR);
    assert(s[e + 1] == LF);
    let f = fields(line_body(h));
    assert(block_at(s, 0, false, Some(key)) == Some(
        (
            Ok::<(Seq<u8>, Seq<u8>, u32, Option<u64>), Fault>((key, value, flags, None)),
            (e + 2) as nat,
        ),
    ));
    let endl = end_line();
    assert(endl.len() == 5);
    assert forall|j: int| e + 2 <= j < e + 6 implies s[j] != LF by {
        assert(s[j] == endl[j - e - 2]);
    }
    assert(s[e + 6] == endl[4]);
    lemma_find_first(s, LF, (e + 2) as nat, (e + 6) as nat);
    assert(s.subrange(e + 2, e + 7) =~= endl);
    assert(reply.len() == e + 7);
}

/// `cas` soft-fails: a reply saying that the item changed since its token
/// was read (`EXISTS`, status 2) or is gone (`NOT_FOUND`, status 1) reads as
/// `false`, never as an error, in the text and in the binary protocol.
pub proof fn lemma_cas_soft_fail(line: Seq<u8>, packet: crate::binary::PacketView)
    ensures
        line == exists_reply() ==> cas_outcome(line) == Ok::<bool, Fault>(false),
        line == not_found_reply() ==> cas_outcome(line) == Ok::<bool, Fault>(false),
        packet.1 == 1 || packet.1 == 2 ==> crate::binary::cas_outcome(packet) == Ok::<bool, Fault>(
            false,
        ),
{
    reveal_strlit("EXISTS\r\n");
    reveal_strlit("NOT_FOUND\r\n");
    reveal_strlit("ERROR\r\n");
    reveal_strlit("CLIENT_ERROR");
    reveal_strlit("SERVER_ERROR");
    reveal_strlit("STORED\r\n");
    lemma_ascii("EXISTS\r\n");
    lemma_ascii("NOT_FOUND\r\n");
    lemma_ascii("ERROR\r\n");
    lemma_ascii("CLIENT_ERROR");
    lemma_ascii("SERVER_ERROR");
    lemma_ascii("STORED\r\n");
    let ex = exists_reply();
    let nf = not_found_reply();
    assert(ex != crate::error::error_reply()) by {
        assert(ex[1] != crate::error::error_reply()[1]);
    }
    assert(!is_prefix(crate::error::client_error_prefix(), ex)) by {
        assert(ex.len() < 12);
    }
    assert(!is_prefix(crate::error::server_error_prefix(), ex)) by {
        assert(ex.len() < 12);
    }
    assert(ex != stored_reply()) by {
        assert(ex[0] != stored_reply()[0]);
    }
    assert(nf != crate::error::error_reply()) by {
        assert(nf[0] != crate::error::error_reply()[0]);
    }
    assert(!is_prefix(crate::error::client_error_prefix(), nf)) by {
        assert(nf.len() < 12);
    }
    assert(!is_prefix(crate::error::server_error_prefix(), nf)) by {
        assert(nf.len() < 12);
    }
    assert(nf != stored_reply()) by {
        assert(nf[0] != stored_reply()[0]);
    }
}

} // verus!
