//! The decision logic of the standalone line-reading loop: what to print for
//! one line of input and whether to stop afterwards. Reading stdin and
//! writing stdout stay with the caller; the loop stops only on end of input
//! (the caller's case) or on `quit`, never on a processing error.

use vstd::prelude::*;
use vstd::string::StringExecFns;
use crate::engine::Engine;
use crate::engine::EngineError;
use crate::engine::EngineView;
use crate::engine::spec_message;
use crate::engine::spec_step;
use crate::engine::uci_id_block;
use crate::text::chars_eq_str;
use crate::text::has_prefix;
use crate::text::is_ws;
use crate::text::spec_trim;
use crate::text::str_chars;
use crate::text::trim_chars;

verus! {

/// The line the loop prints for one line of input: the response on success,
/// or the error rendered behind the fixed prefix.
pub open spec fn spec_line_reply(e: EngineView, line: Seq<char>) -> Seq<char> {
    match spec_step(e, line).1 {
        Ok(s) => s,
        Err(err) => "error processing command: "@ + spec_message(err),
    }
}

/// Whether the loop terminates after this line: only a successfully
/// processed `quit` stops it.
pub open spec fn spec_line_quit(e: EngineView, line: Seq<char>) -> bool {
    spec_step(e, line).1 is Ok && spec_trim(line) == "quit"@
}

/// Handles one line of input: processes it, renders errors as a prefixed
/// text line (they are never fatal), and reports whether the loop should
/// terminate.
pub fn handle_line(engine: &mut Engine, line: &str) -> (r: (String, bool))
    ensures
        final(engine)@ == spec_step(old(engine)@, line@).0,
        r.0@ == spec_line_reply(old(engine)@, line@),
        r.1 == spec_line_quit(old(engine)@, line@),
{
    match engine.process_command(line) {
        Ok(reply) => {
            let chars = str_chars(line);
            let t = trim_chars(&chars);
            let quit = chars_eq_str(&t, "quit");
            (reply, quit)
        },
        Err(e) => {
            let mut m = String::from_str("error processing command: ");
            let msg = e.message();
            m.append(msg.as_str());
            (m, false)
        },
    }
}

/// Processing never de-initializes the engine, and a command that fails
/// leaves the state exactly as it was: one bad command cannot kill the
/// conversation.
pub proof fn lemma_step_keeps_engine_usable(e: EngineView, line: Seq<char>)
    ensures
        e.initialized ==> spec_step(e, line).0.initialized,
        spec_step(e, line).1 is Err ==> spec_step(e, line).0 == e,
{
}

/// On an initialized engine `uci` succeeds with text that carries the
/// engine's declared name and the `uciok` terminator.
pub proof fn lemma_uci_identifies(e: EngineView)
    requires
        e.initialized,
    ensures
        spec_step(e, "uci"@).1 is Ok,
        seq_contains_sub(spec_step(e, "uci"@).1->Ok_0, "BrainFish"@),
        seq_contains_sub(spec_step(e, "uci"@).1->Ok_0, "uciok"@),
{
    reveal_strlit("uci");
    reveal_strlit("id name BrainFish\nid author BlackBoxAI\nuciok");
    reveal_strlit("BrainFish");
    reveal_strlit("uciok");
    assert(spec_trim("uci"@) == "uci"@);
    let block = uci_id_block();
    assert(block.subrange(8, 17) =~= "BrainFish"@);
    assert(sub_at(block, "BrainFish"@, 8));
    assert(seq_contains_sub(block, "BrainFish"@));
    assert(block.subrange(39, 44) =~= "uciok"@);
    assert(sub_at(block, "uciok"@, 39));
    assert(seq_contains_sub(block, "uciok"@));
}

/// On an initialized engine `isready` answers exactly `readyok`.
pub proof fn lemma_isready_round_trip(e: EngineView)
    requires
        e.initialized,
    ensures
        spec_step(e, "isready"@).1 == Ok::<Seq<char>, EngineError>("readyok"@),
{
    reveal_strlit("isready");
    reveal_strlit("uci");
    assert(spec_trim("isready"@) == "isready"@);
    assert("isready"@ != "uci"@);
}

/// A command recognized by no verb succeeds with the literal text
/// `unknown command`: protocol probing never crashes the loop.
pub proof fn lemma_unknown_command_tolerated(e: EngineView, cmd: Seq<char>)
    requires
        e.initialized,
        spec_trim(cmd) != "uci"@,
        spec_trim(cmd) != "isready"@,
        !has_prefix(spec_trim(cmd), "position fen "@),
        !has_prefix(spec_trim(cmd), "go depth "@),
    ensures
        spec_step(e, cmd) == (e, Ok::<Seq<char>, EngineError>("unknown command"@)),
{
}

/// A `position fen` command whose position fails validation is answered
/// with `InvalidFen` and stores nothing: an invalid FEN never reaches the
/// search.
pub proof fn lemma_invalid_fen_rejected(e: EngineView, fen: Seq<char>)
    requires
        e.initialized,
        fen.len() > 0,
        !is_ws(fen.last()),
        !crate::fen::spec_fen_valid(fen),
    ensures
        spec_step(e, "position fen "@ + fen) == (
            e,
            Err::<Seq<char>, EngineError>(EngineError::InvalidFen),
        ),
{
    reveal_strlit("position fen ");
    reveal_strlit("uci");
    reveal_strlit("isready");
    let cmd = "position fen "@ + fen;
    assert(!is_ws(cmd[0]));
    assert(cmd.last() == fen.last());
    assert(spec_trim(cmd) == cmd);
    assert(cmd.take("position fen "@.len() as int) =~= "position fen "@);
    assert(cmd.skip("position fen "@.len() as int) =~= fen);
    assert(cmd != "uci"@);
    assert(cmd != "isready"@);
}

/// `needle` occurs at position `i` of `hay`.
pub open spec fn sub_at(hay: Seq<char>, needle: Seq<char>, i: int) -> bool {
    0 <= i && i + needle.len() <= hay.len() && hay.subrange(i, i + needle.len()) == needle
}

/// `needle` occurs somewhere in `hay`.
pub open spec fn seq_contains_sub(hay: Seq<char>, needle: Seq<char>) -> bool {
    exists|i: int| sub_at(hay, needle, i)
}

} // verus!
