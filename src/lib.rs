//! Transcoding between bytes and the 81-symbol tetragram alphabet, the fixed
//! width trit codec, and a static gas estimator for bytecode.
//!
//! - [`universal`]: any byte sequence as one number in base 81, lossless up to
//!   most-significant zero bytes.
//! - [`direct`]: text as balanced trits, three symbols for -1, 0 and +1.
//! - [`gas`]: gas of a bytecode from an opcode table, one opcode per byte.

pub mod alphabet;
pub mod analysis;
pub mod bignum;
pub mod commands;
pub mod direct;
pub mod error;
pub mod gas;
pub mod runtime;
pub mod templates;
pub mod text;
pub mod universal;

pub use alphabet::{symbol_for_digit, symbols_from_digits, ALPHABET_SIZE, GLYPH_BASE};
pub use analysis::{
    generate_optimization_suggestions, only_symbols_and_space, tetragram_chars, validate_symbols,
    InvalidChar, SymbolValidation,
};
pub use commands::{
    AnalyzeArgs, BenchmarkArgs, BenchmarkMode, CompileArgs, Conversion, ConvertArgs, CreateArgs,
    ExecuteArgs, OutputFormat, TetragramCommands, ValidateArgs,
};
pub use direct::{
    decode_tetragrams_to_text_direct, decode_tetragrams_to_trits_direct,
    encode_text_to_tetragrams_direct, encode_trits_to_tetragrams_direct, text_to_trits,
    trits_to_text,
};
pub use error::CodecError;
pub use gas::{
    CompressionSavings, GasEstimate, GasEstimator, GasTierLimit, OpcodeCost, OpcodeEstimate,
};
pub use runtime::get_install_instructions;
pub use templates::{
    create_crypto_template, create_fibonacci_template, create_hello_world_template,
    create_test_template,
};
pub use universal::{
    base81_digits, decode_tetragrams_to_bytes, decode_tetragrams_to_number,
    decode_tetragrams_to_text, encode_number_to_tetragrams, encode_text_to_tetragrams,
    encode_universal_to_tetragrams,
};
