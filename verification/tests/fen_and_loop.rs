use brainfish_rust::protocol::handle_line;
use brainfish_rust::Engine;
use brainfish_rust::EngineError;

const START_FEN: &str = "rnbqkbnr/pppppppp/8/8/8/8/PPPPPPPP/RNBQKBNR w KQkq - 0 1";

#[test]
fn fen_accepts_starting_position() {
    let engine = Engine::new();
    assert!(engine.validate_fen(START_FEN));
}

#[test]
fn fen_rejects_empty_and_slashless_strings() {
    let engine = Engine::new();
    assert!(!engine.validate_fen(""));
    assert!(!engine.validate_fen("no slashes at all"));
    assert!(!engine.validate_fen("w KQkq - 0 1"));
}

#[test]
fn fen_rejects_structural_garbage() {
    let engine = Engine::new();
    // The permissive placeholder policy would accept this; the structural
    // validator must not.
    assert!(!engine.validate_fen("a/"));
    // wrong number of ranks
    assert!(!engine.validate_fen("8/8/8/8/8/8/8 w KQkq - 0 1"));
    // a rank that decodes to seven squares
    assert!(!engine.validate_fen("rnbqkbnr/ppppppp/8/8/8/8/PPPPPPPP/RNBQKBNR w KQkq - 0 1"));
    // an illegal piece letter
    assert!(!engine.validate_fen("rnbqkbnr/pppppppp/8/8/8/8/PPPPPPPP/RNBQKBNX w KQkq - 0 1"));
    // a bad side-to-move field
    assert!(!engine.validate_fen("rnbqkbnr/pppppppp/8/8/8/8/PPPPPPPP/RNBQKBNR x KQkq - 0 1"));
    // bad castling rights
    assert!(!engine.validate_fen("rnbqkbnr/pppppppp/8/8/8/8/PPPPPPPP/RNBQKBNR w KQxq - 0 1"));
    // a bad en-passant square
    assert!(!engine.validate_fen("rnbqkbnr/pppppppp/8/8/8/8/PPPPPPPP/RNBQKBNR w KQkq e5 0 1"));
    // counters must be digits
    assert!(!engine.validate_fen("rnbqkbnr/pppppppp/8/8/8/8/PPPPPPPP/RNBQKBNR w KQkq - x 1"));
    // the board alone is not a full six-field FEN record
    assert!(!engine.validate_fen("rnbqkbnr/pppppppp/8/8/8/8/PPPPPPPP/RNBQKBNR"));
}

#[test]
fn fen_accepts_other_well_formed_positions() {
    let engine = Engine::new();
    assert!(engine.validate_fen("8/8/8/8/8/8/8/8 w - - 0 1"));
    assert!(engine.validate_fen("rnbqkbnr/pppppppp/8/8/4P3/8/PPPP1PPP/RNBQKBNR b KQkq e3 0 1"));
}

#[test]
fn loop_scenario_uci_isready_quit() {
    let mut engine = Engine::new();
    engine.initialize().unwrap();

    let (reply, quit) = handle_line(&mut engine, "uci\n");
    assert!(reply.contains("BrainFish"));
    assert!(reply.contains("uciok"));
    assert!(!quit);

    let (reply, quit) = handle_line(&mut engine, "isready\n");
    assert_eq!(reply, "readyok");
    assert!(!quit);

    let (reply, quit) = handle_line(&mut engine, "quit\n");
    assert_eq!(reply, "unknown command");
    assert!(quit);
}

#[test]
fn loop_scenario_invalid_position_then_go() {
    let mut engine = Engine::new();
    engine.initialize().unwrap();

    let (reply, quit) = handle_line(&mut engine, "position fen not-a-position\n");
    assert_eq!(reply, "error processing command: Invalid FEN string");
    assert!(!quit);

    let (reply, quit) = handle_line(&mut engine, "go depth 5\n");
    assert_eq!(reply, "error processing command: Invalid FEN string");
    assert!(!quit);
    assert!(!reply.contains("info depth"));
}

#[test]
fn loop_errors_are_not_fatal() {
    let mut engine = Engine::new();
    let (reply, quit) = handle_line(&mut engine, "isready\n");
    assert_eq!(reply, "error processing command: Engine not initialized");
    assert!(!quit);
    engine.initialize().unwrap();
    let (reply, quit) = handle_line(&mut engine, "isready\n");
    assert_eq!(reply, "readyok");
    assert!(!quit);
}
