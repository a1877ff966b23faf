use vstd::prelude::*;

use crate::text::{chars_of, hex_lower, hex_string};

verus! {

/// The MD5 digest of the UTF-8 bytes of a string.
pub uninterp spec fn md5_digest_of(data: Seq<char>) -> Seq<u8>;

/// Computes `md5::compute` over the UTF-8 bytes of `data`. The contract names
/// the digest and states its 16-byte length, which the crate's `Digest` type fixes.
#[verifier::external_body]
fn md5_digest(data: &str) -> (d: Vec<u8>)
    ensures
        d@ == md5_digest_of(data@),
        d@.len() == 16,
{
    md5::compute(data.as_bytes()).0.to_vec()
}

/// What `str::to_uppercase` makes of a string.
pub uninterp spec fn uppercase_of(s: Seq<char>) -> Seq<char>;

/// The upper-case form of `s` by `str::to_uppercase`.
#[verifier::external_body]
fn to_uppercase(s: &str) -> (u: String)
    ensures
        u@ == uppercase_of(s@),
{
    s.to_uppercase()
}

/// The ASCII bytes of a text whose characters are all ASCII.
pub open spec fn ascii_bytes(s: Seq<char>) -> Seq<u8> {
    s.map_values(|c: char| c as u8)
}

/// A mock Redis client for testing: it remembers the scripts loaded into it
/// by their hash.
pub struct MockRedisClient {
    scripts: Vec<(String, String)>,
}

/// The scripts held, by hash; a later load of a hash overrides an earlier one.
pub open spec fn script_table(entries: Seq<(String, String)>) -> Map<Seq<char>, Seq<char>>
    decreases entries.len(),
{
    if entries.len() == 0 {
        Map::empty()
    } else {
        script_table(entries.drop_last()).insert(entries.last().0@, entries.last().1@)
    }
}

/// The hash under which a script is stored: the hex MD5 digest of its text.
pub open spec fn script_hash(script: Seq<char>) -> Seq<char> {
    hex_lower(md5_digest_of(script))
}

/// Errors the mock connection reports for commands it does not handle.
#[derive(Debug, Clone, Copy, PartialEq, Eq, Structural)]
pub enum MockCommandError {
    /// `SCRIPT` without a subcommand
    InvalidScriptCommand,
    /// `SCRIPT LOAD` without a script
    MissingScriptArgument,
    /// A `SCRIPT` subcommand other than `LOAD`
    UnsupportedScriptSubcommand,
    /// A command other than `SCRIPT`
    UnsupportedCommand,
}

impl MockCommandError {
    /// The error's description.
    pub fn message(&self) -> (m: &'static str)
        ensures
            m@ == match self {
                MockCommandError::InvalidScriptCommand => "Invalid SCRIPT command"@,
                MockCommandError::MissingScriptArgument => "Missing script argument"@,
                MockCommandError::UnsupportedScriptSubcommand => "Unsupported SCRIPT subcommand"@,
                MockCommandError::UnsupportedCommand => "Unsupported command"@,
            },
    {
        match self {
            MockCommandError::InvalidScriptCommand => "Invalid SCRIPT command",
            MockCommandError::MissingScriptArgument => "Missing script argument",
            MockCommandError::UnsupportedScriptSubcommand => "Unsupported SCRIPT subcommand",
            MockCommandError::UnsupportedCommand => "Unsupported command",
        }
    }
}

impl MockRedisClient {
    /// The scripts loaded, by hash.
    pub closed spec fn scripts(&self) -> Map<Seq<char>, Seq<char>> {
        script_table(self.scripts@)
    }

    /// Create a new mock Redis client
    pub fn new() -> (c: Self)
        ensures
            c.scripts() == Map::<Seq<char>, Seq<char>>::empty(),
    {
        MockRedisClient { scripts: Vec::new() }
    }

    /// Mock implementation of the SCRIPT LOAD command: stores the script
    /// under its hash (the hex MD5 digest) and answers the hash.
    pub fn script_load(&mut self, script: &str) -> (hash: String)
        ensures
            hash@ == script_hash(script@),
            final(self).scripts() == old(self).scripts().insert(hash@, script@),
    {
        let digest = md5_digest(script);
        let hash = hex_string(digest.as_slice());
        self.scripts.push((hash.clone(), script.to_owned()));
        proof {
            assert(self.scripts@.drop_last() == old(self).scripts@);
        }
        hash
    }

    /// Get a mock connection holding the scripts loaded so far
    pub fn get_mock_connection(&self) -> (conn: MockRedisConnection)
        ensures
            conn.scripts() == self.scripts(),
    {
        let mut copy: Vec<(String, String)> = Vec::new();
        let mut i: usize = 0;
        while i < self.scripts.len()
            invariant
                i <= self.scripts@.len(),
                script_table(copy@) == script_table(self.scripts@.take(i as int)),
            decreases self.scripts@.len() - i,
        {
            let h = self.scripts[i].0.clone();
            let s = self.scripts[i].1.clone();
            let ghost prev = copy@;
            copy.push((h, s));
            proof {
                assert(copy@.drop_last() == prev);
                assert(self.scripts@.take(i + 1).drop_last() == self.scripts@.take(i as int));
            }
            i = i + 1;
        }
        proof {
            assert(self.scripts@.take(self.scripts@.len() as int) == self.scripts@);
        }
        MockRedisConnection { client: MockRedisClient { scripts: copy } }
    }
}

/// A mock Redis connection for testing purposes
pub struct MockRedisConnection {
    client: MockRedisClient,
}

/// The reply to a command whose name and first argument are already in upper
/// case: only `SCRIPT LOAD <script>` succeeds, with the ASCII bytes of the
/// script's hash.
pub open spec fn upper_reply(command: Seq<char>, sub: Option<Seq<char>>, script: Option<Seq<char>>) -> Result<Seq<u8>, MockCommandError> {
    if command != "SCRIPT"@ {
        Err(MockCommandError::UnsupportedCommand)
    } else {
        match sub {
            None => Err(MockCommandError::InvalidScriptCommand),
            Some(s) => if s != "LOAD"@ {
                Err(MockCommandError::UnsupportedScriptSubcommand)
            } else {
                match script {
                    None => Err(MockCommandError::MissingScriptArgument),
                    Some(t) => Ok(ascii_bytes(script_hash(t))),
                }
            },
        }
    }
}

/// The reply the mock gives to `cmd` with `args`: for `SCRIPT LOAD <script>`
/// (in any letter case) the ASCII bytes of the script's hash.
pub open spec fn mock_reply(cmd: Seq<char>, args: Seq<Seq<char>>) -> Result<Seq<u8>, MockCommandError> {
    upper_reply(
        uppercase_of(cmd),
        if args.len() > 0 { Some(uppercase_of(args[0])) } else { None },
        if args.len() > 1 { Some(args[1]) } else { None },
    )
}

/// The view of an optional string slice.
pub open spec fn opt_view(s: Option<&str>) -> Option<Seq<char>> {
    match s {
        Some(t) => Some(t@),
        None => None,
    }
}

/// The views of a list of string slices.
pub open spec fn arg_views(args: Seq<&str>) -> Seq<Seq<char>> {
    args.map_values(|a: &str| a@)
}

proof fn lemma_hex_is_ascii(bytes: Seq<u8>)
    ensures
        forall|i: int| 0 <= i < hex_lower(bytes).len() ==> (#[trigger] hex_lower(bytes)[i] as u32) < 128,
    decreases bytes.len(),
{
    if bytes.len() > 0 {
        lemma_hex_is_ascii(bytes.drop_last());
        let prev = hex_lower(bytes.drop_last());
        let hi = (bytes.last() / 16) as nat;
        let lo = (bytes.last() % 16) as nat;
        lemma_hex_char_ascii(hi);
        lemma_hex_char_ascii(lo);
        assert forall|i: int| 0 <= i < hex_lower(bytes).len() implies (#[trigger] hex_lower(bytes)[i] as u32) < 128 by {
            if i < prev.len() {
                assert(hex_lower(bytes)[i] == prev[i]);
            }
        }
    }
}

proof fn lemma_hex_char_ascii(d: nat)
    requires
        d < 16,
    ensures
        (crate::text::hex_char(d) as u32) < 128,
{
}

impl MockRedisConnection {
    /// The scripts loaded through this connection's client, by hash.
    pub closed spec fn scripts(&self) -> Map<Seq<char>, Seq<char>> {
        self.client.scripts()
    }

    /// Handle Redis commands in the mock, against the client's script table:
    /// only `SCRIPT LOAD <script>` (in any letter case), which stores the
    /// script and replies with its hash as bytes.
    pub fn execute_command(&mut self, cmd: &str, args: &[&str]) -> (res: Result<Vec<u8>, MockCommandError>)
        ensures
            match mock_reply(cmd@, arg_views(args@)) {
                Ok(b) => res matches Ok(v) && v@ == b && final(self).scripts() == old(self).scripts().insert(
                    script_hash(args@[1]@),
                    args@[1]@,
                ),
                Err(e) => res == Err::<Vec<u8>, MockCommandError>(e) && final(self).scripts() == old(self).scripts(),
            },
    {
        self.client.execute_command(cmd, args)
    }
}

impl MockRedisClient {
    /// Answers a command whose name and first argument are already in upper
    /// case (`command`, `subcommand`), with `script` the second argument:
    /// only `SCRIPT LOAD <script>` is handled, storing the script and
    /// replying with its hash as bytes.
    pub fn dispatch(&mut self, command: &str, subcommand: Option<&str>, script: Option<&str>) -> (res: Result<Vec<u8>, MockCommandError>)
        ensures
            match upper_reply(command@, opt_view(subcommand), opt_view(script)) {
                Ok(b) => res matches Ok(v) && v@ == b && final(self).scripts() == old(self).scripts().insert(
                    script_hash(script->0@),
                    script->0@,
                ),
                Err(e) => res == Err::<Vec<u8>, MockCommandError>(e) && final(self).scripts() == old(self).scripts(),
            },
    {
        if command.to_owned() != "SCRIPT".to_owned() {
            return Err(MockCommandError::UnsupportedCommand);
        }
        let sub = match subcommand {
            Some(s) => s,
            None => return Err(MockCommandError::InvalidScriptCommand),
        };
        if sub.to_owned() != "LOAD".to_owned() {
            return Err(MockCommandError::UnsupportedScriptSubcommand);
        }
        let text = match script {
            Some(t) => t,
            None => return Err(MockCommandError::MissingScriptArgument),
        };
        let hash = self.script_load(text);
        let chars = chars_of(hash.as_str());
        proof {
            lemma_hex_is_ascii(md5_digest_of(text@));
        }
        let mut bytes: Vec<u8> = Vec::new();
        let mut i: usize = 0;
        while i < chars.len()
            invariant
                i <= chars@.len(),
                chars@ == script_hash(text@),
                forall|k: int| 0 <= k < chars@.len() ==> (#[trigger] chars@[k] as u32) < 128,
                bytes@ == ascii_bytes(chars@.take(i as int)),
            decreases chars@.len() - i,
        {
            let c = chars[i];
            bytes.push(c as u8);
            assert(ascii_bytes(chars@.take(i + 1)) == ascii_bytes(chars@.take(i as int)).push(c as u8));
            i = i + 1;
        }
        assert(chars@.take(chars@.len() as int) == chars@);
        Ok(bytes)
    }

    /// Handle Redis commands in the mock: only `SCRIPT LOAD <script>` (in any
    /// letter case), which stores the script and replies with its hash as bytes.
    pub fn execute_command(&mut self, cmd: &str, args: &[&str]) -> (res: Result<Vec<u8>, MockCommandError>)
        ensures
            match mock_reply(cmd@, arg_views(args@)) {
                Ok(b) => res matches Ok(v) && v@ == b && final(self).scripts() == old(self).scripts().insert(
                    script_hash(args@[1]@),
                    args@[1]@,
                ),
                Err(e) => res == Err::<Vec<u8>, MockCommandError>(e) && final(self).scripts() == old(self).scripts(),
            },
    {
        let up = to_uppercase(cmd);
        let sub = if args.len() > 0 {
            Some(to_uppercase(args[0]))
        } else {
            None
        };
        let script = if args.len() > 1 {
            Some(args[1])
        } else {
            None
        };
        match &sub {
            Some(s) => self.dispatch(up.as_str(), Some(s.as_str()), script),
            None => self.dispatch(up.as_str(), None, script),
        }
    }
}

} // verus!
