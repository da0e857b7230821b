use brainfish_rust::Engine;
use brainfish_rust::EngineError;

const START_FEN: &str = "rnbqkbnr/pppppppp/8/8/8/8/PPPPPPPP/RNBQKBNR w KQkq - 0 1";

#[test]
fn test_engine_initialization() {
    let mut engine = Engine::new();
    assert!(!engine.initialized);
    assert!(engine.initialize().is_ok());
    assert!(engine.initialized);
}

#[test]
fn test_process_command() {
    let mut engine = Engine::new();
    engine.initialize().unwrap();

    let response = engine.process_command("uci").unwrap();
    assert!(response.contains("BrainFish"));

    let response = engine.process_command("isready").unwrap();
    assert_eq!(response, "readyok");
}

#[test]
fn test_engine_basic_commands() {
    let mut engine = Engine::new();
    engine.initialize().unwrap();

    // Test UCI command
    let response = engine.process_command("uci").unwrap();
    assert!(response.contains("BrainFish"));
    assert!(response.contains("uciok"));

    // Test isready command
    let response = engine.process_command("isready").unwrap();
    assert_eq!(response, "readyok");
}

#[test]
fn uninitialized_engine_rejects_commands() {
    let mut engine = Engine::new();
    assert!(matches!(
        engine.process_command("isready"),
        Err(EngineError::NotInitialized)
    ));
    let engine = Engine::new();
    assert!(matches!(
        engine.analyze_position(START_FEN, 3),
        Err(EngineError::NotInitialized)
    ));
}

#[test]
fn initialize_is_idempotent() {
    let mut engine = Engine::new();
    assert!(engine.initialize().is_ok());
    assert!(engine.is_initialized());
    assert!(engine.initialize().is_ok());
    assert!(engine.is_initialized());
    let response = engine.process_command("isready").unwrap();
    assert_eq!(response, "readyok");
}

#[test]
fn unknown_command_is_tolerated() {
    let mut engine = Engine::new();
    engine.initialize().unwrap();
    let response = engine.process_command("bogus-verb").unwrap();
    assert_eq!(response, "unknown command");
}

#[test]
fn commands_are_trimmed() {
    let mut engine = Engine::new();
    engine.initialize().unwrap();
    let response = engine.process_command("  isready \r\n").unwrap();
    assert_eq!(response, "readyok");
}

#[test]
fn uci_identification_block_is_exact() {
    let mut engine = Engine::new();
    engine.initialize().unwrap();
    let response = engine.process_command("uci").unwrap();
    assert_eq!(response, "id name BrainFish\nid author BlackBoxAI\nuciok");
}

#[test]
fn analyze_position_formats_info_line() {
    let mut engine = Engine::new();
    engine.initialize().unwrap();
    let response = engine.analyze_position(START_FEN, 5).unwrap();
    assert_eq!(response, "info depth 5 score cp 100 pv e2e4 e7e5");
    let response = engine.analyze_position(START_FEN, 0).unwrap();
    assert_eq!(response, "info depth 0 score cp 100 pv e2e4 e7e5");
    let response = engine.analyze_position(START_FEN, -12).unwrap();
    assert_eq!(response, "info depth -12 score cp 100 pv e2e4 e7e5");
    let response = engine.analyze_position(START_FEN, i32::MAX).unwrap();
    assert_eq!(response, "info depth 2147483647 score cp 100 pv e2e4 e7e5");
}

#[test]
fn analyze_position_rejects_invalid_fen() {
    let mut engine = Engine::new();
    engine.initialize().unwrap();
    assert!(matches!(
        engine.analyze_position("", 5),
        Err(EngineError::InvalidFen)
    ));
    assert!(matches!(
        engine.analyze_position("no slashes here", 5),
        Err(EngineError::InvalidFen)
    ));
}

#[test]
fn position_and_go_round_trip() {
    let mut engine = Engine::new();
    engine.initialize().unwrap();
    let mut command = String::from("position fen ");
    command.push_str(START_FEN);
    let response = engine.process_command(&command).unwrap();
    assert_eq!(response, "");
    let response = engine.process_command("go depth 7").unwrap();
    assert_eq!(response, "info depth 7 score cp 100 pv e2e4 e7e5");
}

#[test]
fn go_depth_argument_edge_cases() {
    let mut engine = Engine::new();
    engine.initialize().unwrap();
    let mut command = String::from("position fen ");
    command.push_str(START_FEN);
    engine.process_command(&command).unwrap();

    let response = engine.process_command("go depth 007").unwrap();
    assert_eq!(response, "info depth 7 score cp 100 pv e2e4 e7e5");
    let response = engine.process_command("go depth 2147483647").unwrap();
    assert_eq!(response, "info depth 2147483647 score cp 100 pv e2e4 e7e5");
    let response = engine.process_command("go depth 2147483648").unwrap();
    assert_eq!(response, "unknown command");
    let response = engine.process_command("go depth 5x").unwrap();
    assert_eq!(response, "unknown command");
    let response = engine.process_command("go depth").unwrap();
    assert_eq!(response, "unknown command");
}

#[test]
fn go_without_valid_position_is_rejected() {
    let mut engine = Engine::new();
    engine.initialize().unwrap();
    assert!(matches!(
        engine.process_command("go depth 5"),
        Err(EngineError::InvalidFen)
    ));
}

#[test]
fn error_messages_are_descriptive() {
    assert_eq!(
        EngineError::InitializationError.message(),
        "Failed to initialize engine"
    );
    assert_eq!(EngineError::InvalidFen.message(), "Invalid FEN string");
    assert_eq!(
        EngineError::NotInitialized.message(),
        "Engine not initialized"
    );
    assert_eq!(
        EngineError::FfiError(String::from("null command pointer")).message(),
        "FFI error: null command pointer"
    );
}

#[test]
fn process_to_text_downgrades_errors_to_text() {
    let mut engine = Engine::new();
    let response = engine.process_to_text("isready");
    assert_eq!(response, "error: Engine not initialized");
    engine.initialize().unwrap();
    let response = engine.process_to_text("position fen garbage");
    assert_eq!(response, "error: Invalid FEN string");
    let response = engine.process_to_text("isready");
    assert_eq!(response, "readyok");
}
