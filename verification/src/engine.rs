//! Engine lifecycle state and the command processor: a deterministic mapping
//! from one trimmed line of protocol text to a response or a typed error.

use vstd::prelude::*;
use vstd::string::StringExecFns;
use crate::fen::fen_valid_chars;
use crate::fen::spec_fen_valid;
use crate::text::chars_eq_str;
use crate::text::chars_has_prefix;
use crate::text::chars_suffix;
use crate::text::has_prefix;
use crate::text::i32_dec;
use crate::text::i32_dec_str;
use crate::text::parse_depth;
use crate::text::spec_parse_depth;
use crate::text::spec_trim;
use crate::text::str_chars;
use crate::text::trim_chars;
use vstd::string::StrSliceExecFns;

verus! {

/// The errors the engine can report. Unknown commands are not among them:
/// they get a successful "unknown command" response instead.
#[derive(Debug)]
pub enum EngineError {
    /// Setup failed. Reserved: the present placeholder setup cannot fail.
    InitializationError,
    /// A position string failed structural FEN validation.
    InvalidFen,
    /// A command needing an initialized engine arrived before `initialize`.
    NotInitialized,
    /// A fault detected at the native boundary, downgraded to a value.
    FfiError(String),
}

/// The engine's state as the contracts see it.
pub ghost struct EngineView {
    pub initialized: bool,
    pub position: Option<Seq<char>>,
}

/// The sole stateful entity: readiness plus the current position, once one
/// has been accepted. Search state would join these fields later.
pub struct Engine {
    pub initialized: bool,
    pub position: Option<Vec<char>>,
}

impl View for Engine {
    type V = EngineView;

    open spec fn view(&self) -> EngineView {
        EngineView {
            initialized: self.initialized,
            position: match self.position {
                Some(p) => Some(p@),
                None => None,
            },
        }
    }
}

/// What `initialize` does to the state: marks it ready, touches nothing else.
pub open spec fn spec_initialize(e: EngineView) -> EngineView {
    EngineView { initialized: true, ..e }
}

/// The engine's identification block, ended by the `uciok` terminator.
pub open spec fn uci_id_block() -> Seq<char> {
    "id name BrainFish\nid author BlackBoxAI\nuciok"@
}

/// The placeholder analysis response: a UCI `info` line carrying the
/// requested depth, a fixed score and a fixed principal variation.
pub open spec fn spec_info_line(depth: i32) -> Seq<char> {
    "info depth "@ + i32_dec(depth) + " score cp 100 pv e2e4 e7e5"@
}

/// The command processor: the state after one command and the response or
/// error it yields. Commands are matched after trimming; anything
/// unrecognized succeeds with "unknown command".
pub open spec fn spec_step(e: EngineView, cmd: Seq<char>) -> (EngineView, Result<
    Seq<char>,
    EngineError,
>) {
    let t = spec_trim(cmd);
    if !e.initialized {
        (e, Err(EngineError::NotInitialized))
    } else if t == "uci"@ {
        (e, Ok(uci_id_block()))
    } else if t == "isready"@ {
        (e, Ok("readyok"@))
    } else if has_prefix(t, "position fen "@) {
        let f = t.skip("position fen "@.len() as int);
        if spec_fen_valid(f) {
            (EngineView { position: Some(f), ..e }, Ok(Seq::<char>::empty()))
        } else {
            (e, Err(EngineError::InvalidFen))
        }
    } else if has_prefix(t, "go depth "@) {
        match spec_parse_depth(t.skip("go depth "@.len() as int)) {
            Some(d) => match e.position {
                Some(_) => (e, Ok(spec_info_line(d))),
                None => (e, Err(EngineError::InvalidFen)),
            },
            None => (e, Ok("unknown command"@)),
        }
    } else {
        (e, Ok("unknown command"@))
    }
}

/// What `analyze_position` returns: the placeholder `info` line, or the
/// error owed to an uninitialized engine or an invalid position.
pub open spec fn spec_analyze(e: EngineView, fen: Seq<char>, depth: i32) -> Result<
    Seq<char>,
    EngineError,
> {
    if !e.initialized {
        Err(EngineError::NotInitialized)
    } else if !spec_fen_valid(fen) {
        Err(EngineError::InvalidFen)
    } else {
        Ok(spec_info_line(depth))
    }
}

/// An executable result agrees with a spec-level one: same constructor, and
/// the text or error carried matches.
pub open spec fn res_agrees(r: Result<String, EngineError>, s: Result<
    Seq<char>,
    EngineError,
>) -> bool {
    match (r, s) {
        (Ok(a), Ok(b)) => a@ == b,
        (Err(a), Err(b)) => a == b,
        _ => false,
    }
}

/// The error text shown to callers, one fixed line per error kind.
pub open spec fn spec_message(e: EngineError) -> Seq<char> {
    match e {
        EngineError::InitializationError => "Failed to initialize engine"@,
        EngineError::InvalidFen => "Invalid FEN string"@,
        EngineError::NotInitialized => "Engine not initialized"@,
        EngineError::FfiError(s) => "FFI error: "@ + s@,
    }
}

impl EngineError {
    /// The error rendered as text.
    pub fn message(&self) -> (r: String)
        ensures
            r@ == spec_message(*self),
    {
        match self {
            EngineError::InitializationError => String::from_str("Failed to initialize engine"),
            EngineError::InvalidFen => String::from_str("Invalid FEN string"),
            EngineError::NotInitialized => String::from_str("Engine not initialized"),
            EngineError::FfiError(s) => {
                let mut m = String::from_str("FFI error: ");
                m.append(s.as_str());
                m
            },
        }
    }
}

/// The response `process_command` owes, with errors rendered as an
/// `error: `-prefixed line, as the native boundary reports them.
pub open spec fn spec_step_text(e: EngineView, cmd: Seq<char>) -> Seq<char> {
    match spec_step(e, cmd).1 {
        Ok(s) => s,
        Err(err) => "error: "@ + spec_message(err),
    }
}

impl Engine {
    /// A fresh engine: not yet initialized, no position.
    pub fn new() -> (r: Engine)
        ensures
            !r@.initialized,
            r@.position is None,
    {
        Engine { initialized: false, position: None }
    }

    /// Marks the engine ready. Idempotent: a second call succeeds and
    /// changes nothing; setup cannot fail, so the result is always `Ok`.
    pub fn initialize(&mut self) -> (r: Result<(), EngineError>)
        ensures
            r is Ok,
            final(self)@ == spec_initialize(old(self)@),
            old(self).initialized ==> *final(self) == *old(self),
    {
        if self.initialized {
            return Ok(());
        }
        self.initialized = true;
        Ok(())
    }

    /// Pure readiness query.
    pub fn is_initialized(&self) -> (r: bool)
        ensures
            r == self@.initialized,
    {
        self.initialized
    }

    /// Maps one line of protocol text to a response, per `spec_step`. The
    /// engine must be initialized; unknown commands succeed.
    pub fn process_command(&mut self, command: &str) -> (r: Result<String, EngineError>)
        ensures
            final(self)@ == spec_step(old(self)@, command@).0,
            res_agrees(r, spec_step(old(self)@, command@).1),
    {
        let chars = str_chars(command);
        let t = trim_chars(&chars);
        if !self.initialized {
            return Err(EngineError::NotInitialized);
        }
        if chars_eq_str(&t, "uci") {
            return Ok(String::from_str("id name BrainFish\nid author BlackBoxAI\nuciok"));
        }
        if chars_eq_str(&t, "isready") {
            return Ok(String::from_str("readyok"));
        }
        if chars_has_prefix(&t, "position fen ") {
            let plen = "position fen ".unicode_len();
            let f = chars_suffix(&t, plen);
            if fen_valid_chars(&f) {
                self.position = Some(f);
                return Ok(String::new());
            }
            return Err(EngineError::InvalidFen);
        }
        if chars_has_prefix(&t, "go depth ") {
            let plen = "go depth ".unicode_len();
            let rest = chars_suffix(&t, plen);
            match parse_depth(&rest) {
                Some(d) => {
                    if self.position.is_some() {
                        return Ok(info_line(d));
                    }
                    return Err(EngineError::InvalidFen);
                },
                None => {
                    return Ok(String::from_str("unknown command"));
                },
            }
        }
        Ok(String::from_str("unknown command"))
    }

    /// Validates a position string, per `spec_fen_valid`.
    pub fn validate_fen(&self, fen: &str) -> (r: bool)
        ensures
            r == spec_fen_valid(fen@),
    {
        let chars = str_chars(fen);
        fen_valid_chars(&chars)
    }

    /// Checks readiness and the position, then hands the pair to the (still
    /// placeholder) search and formats its answer, per `spec_analyze`.
    pub fn analyze_position(&self, fen: &str, depth: i32) -> (r: Result<String, EngineError>)
        ensures
            res_agrees(r, spec_analyze(self@, fen@, depth)),
    {
        if !self.is_initialized() {
            return Err(EngineError::NotInitialized);
        }
        if !self.validate_fen(fen) {
            return Err(EngineError::InvalidFen);
        }
        Ok(info_line(depth))
    }

    /// Processes one command and always produces text: a response, or the
    /// error rendered as an `error: ` line. This is the crash-proof surface
    /// the native boundary returns to its caller.
    pub fn process_to_text(&mut self, command: &str) -> (r: String)
        ensures
            final(self)@ == spec_step(old(self)@, command@).0,
            r@ == spec_step_text(old(self)@, command@),
    {
        match self.process_command(command) {
            Ok(s) => s,
            Err(e) => {
                let mut m = String::from_str("error: ");
                let msg = e.message();
                m.append(msg.as_str());
                m
            },
        }
    }
}

/// Builds the placeholder `info` line for a depth, per `spec_info_line`.
pub fn info_line(depth: i32) -> (r: String)
    ensures
        r@ == spec_info_line(depth),
{
    let mut s = String::from_str("info depth ");
    let digits = i32_dec_str(depth);
    s.append(digits.as_str());
    s.append(" score cp 100 pv e2e4 e7e5");
    s
}

/// Before initialization every command and every analysis request fails
/// with `NotInitialized`, and the state is left untouched.
pub proof fn lemma_uninitialized_rejected(e: EngineView, cmd: Seq<char>, fen: Seq<char>, depth: i32)
    requires
        !e.initialized,
    ensures
        spec_step(e, cmd).0 == e,
        spec_step(e, cmd).1 == Err::<Seq<char>, EngineError>(EngineError::NotInitialized),
        spec_analyze(e, fen, depth) == Err::<Seq<char>, EngineError>(EngineError::NotInitialized),
{
}

/// Initializing is idempotent: the state is ready afterwards, and a second
/// initialization is a no-op.
pub proof fn lemma_initialize_idempotent(e: EngineView)
    ensures
        spec_initialize(e).initialized,
        spec_initialize(spec_initialize(e)) == spec_initialize(e),
{
}

} // verus!
