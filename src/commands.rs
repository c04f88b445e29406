//! The tetragram commands and their arguments, with the choices that the
//! commands make from them. Paths are held as text.

use vstd::prelude::*;
use crate::templates::{
    create_crypto_template, create_fibonacci_template, create_hello_world_template,
    create_test_template, digit_run, framed, repeated, text_if, CRYPTO_HEAD, FIBONACCI_HEAD,
    HELLO_FOOT, HELLO_HEAD, TEST_HEAD,
};

verus! {

/// A tetragram command.
#[derive(Debug)]
pub enum TetragramCommands {
    /// Execute a tetragram program.
    Execute(ExecuteArgs),
    /// Validate a tetragram file.
    Validate(ValidateArgs),
    /// Convert between tetragram formats.
    Convert(ConvertArgs),
    /// Compile source straight to tetragrams.
    Compile(CompileArgs),
    /// Benchmark tetragram processing.
    Benchmark(BenchmarkArgs),
    /// Create a program from a template.
    Create(CreateArgs),
    /// Analyze a tetragram file.
    Analyze(AnalyzeArgs),
}

/// Arguments of `execute`.
#[derive(Debug)]
pub struct ExecuteArgs {
    pub program: String,
    pub debug: bool,
    pub trace: Option<String>,
    pub memory_limit: usize,
    pub gas_limit: u64,
    pub verbose: bool,
    pub cyberpunk: bool,
    pub save_sm: Option<String>,
    pub output_format: String,
}

/// Arguments of `validate`.
#[derive(Debug)]
pub struct ValidateArgs {
    pub file: String,
    pub check_alignment: bool,
    pub verbose: bool,
}

/// Arguments of `convert`.
#[derive(Debug)]
pub struct ConvertArgs {
    pub input: String,
    pub output: String,
    pub from: String,
    pub to: String,
    pub text: bool,
    pub number: bool,
}

/// Arguments of `compile`.
#[derive(Debug)]
pub struct CompileArgs {
    pub source: String,
    pub output: String,
    pub keep_intermediate: bool,
}

/// Arguments of `benchmark`.
#[derive(Debug)]
pub struct BenchmarkArgs {
    pub operations: usize,
    pub mode: String,
    pub file: Option<String>,
    pub json: bool,
    pub cyberpunk: bool,
    pub save_sm: Option<String>,
    pub iterations: usize,
}

/// Arguments of `create`.
#[derive(Debug)]
pub struct CreateArgs {
    pub output: String,
    pub template: String,
    pub debug_annotations: bool,
}

/// Arguments of `analyze`.
#[derive(Debug)]
pub struct AnalyzeArgs {
    pub file: String,
    pub optimize: bool,
    pub gas_analysis: bool,
    pub memory_analysis: bool,
}

/// The conversions that `convert` offers.
#[derive(Debug, Clone, Copy, PartialEq, Eq, Structural)]
pub enum Conversion {
    /// A decimal number to symbols, with the universal codec.
    NumberToSymbols,
    /// Text to symbols, with the direct trit codec.
    TextToSymbols,
    /// Symbols to a decimal number, with the universal codec.
    SymbolsToNumber,
    /// Symbols to text, with the direct trit codec.
    SymbolsToText,
    /// A bytecode file to symbols.
    BytecodeToSymbols,
}

/// How `execute` reports its result.
#[derive(Debug, Clone, Copy, PartialEq, Eq, Structural)]
pub enum OutputFormat {
    Json,
    Text,
    Summary,
}

/// What `benchmark` measures.
#[derive(Debug, Clone, Copy, PartialEq, Eq, Structural)]
pub enum BenchmarkMode {
    Execute,
    Parse,
    Validate,
}

/// `s` in lower case.
pub uninterp spec fn lowercase_of(s: Seq<char>) -> Seq<char>;

/// Relies on `str::to_lowercase`: the result depends on the characters
/// alone.
#[verifier::external_body]
fn to_lowercase(s: &str) -> (r: String)
    ensures
        r@ == lowercase_of(s@),
{
    s.to_lowercase()
}

/// Whether `s` is the text `lit`.
fn text_is(s: &String, lit: &str) -> (r: bool)
    ensures
        r == (s@ == lit@),
{
    *s == String::from_str(lit)
}

/// The conversion from format `from` to format `to` (both in lower case).
pub open spec fn conversion_of(from: Seq<char>, to: Seq<char>) -> Option<Conversion> {
    if from == "number"@ && to == "sm"@ {
        Some(Conversion::NumberToSymbols)
    } else if from == "text"@ && to == "sm"@ {
        Some(Conversion::TextToSymbols)
    } else if from == "sm"@ && to == "number"@ {
        Some(Conversion::SymbolsToNumber)
    } else if from == "sm"@ && to == "text"@ {
        Some(Conversion::SymbolsToText)
    } else if from == "tritvm"@ && to == "sm"@ {
        Some(Conversion::BytecodeToSymbols)
    } else {
        None
    }
}

impl ConvertArgs {
    /// The conversion that the formats ask for, whatever their case; `None`
    /// where it is not supported.
    pub fn conversion(&self) -> (r: Option<Conversion>)
        ensures
            r == conversion_of(lowercase_of(self.from@), lowercase_of(self.to@)),
    {
        let from = to_lowercase(self.from.as_str());
        let to = to_lowercase(self.to.as_str());
        if text_is(&from, "number") && text_is(&to, "sm") {
            Some(Conversion::NumberToSymbols)
        } else if text_is(&from, "text") && text_is(&to, "sm") {
            Some(Conversion::TextToSymbols)
        } else if text_is(&from, "sm") && text_is(&to, "number") {
            Some(Conversion::SymbolsToNumber)
        } else if text_is(&from, "sm") && text_is(&to, "text") {
            Some(Conversion::SymbolsToText)
        } else if text_is(&from, "tritvm") && text_is(&to, "sm") {
            Some(Conversion::BytecodeToSymbols)
        } else {
            None
        }
    }
}

impl ExecuteArgs {
    /// The report format: `json`, `text`, and anything else a summary.
    pub fn output_mode(&self) -> (r: OutputFormat)
        ensures
            r == (if self.output_format@ == "json"@ {
                OutputFormat::Json
            } else if self.output_format@ == "text"@ {
                OutputFormat::Text
            } else {
                OutputFormat::Summary
            }),
    {
        if text_is(&self.output_format, "json") {
            OutputFormat::Json
        } else if text_is(&self.output_format, "text") {
            OutputFormat::Text
        } else {
            OutputFormat::Summary
        }
    }
}

impl BenchmarkArgs {
    /// The benchmark mode; `None` for an unknown one.
    pub fn benchmark_mode(&self) -> (r: Option<BenchmarkMode>)
        ensures
            r == (if self.mode@ == "execute"@ {
                Some(BenchmarkMode::Execute)
            } else if self.mode@ == "parse"@ {
                Some(BenchmarkMode::Parse)
            } else if self.mode@ == "validate"@ {
                Some(BenchmarkMode::Validate)
            } else {
                None
            }),
    {
        if text_is(&self.mode, "execute") {
            Some(BenchmarkMode::Execute)
        } else if text_is(&self.mode, "parse") {
            Some(BenchmarkMode::Parse)
        } else if text_is(&self.mode, "validate") {
            Some(BenchmarkMode::Validate)
        } else {
            None
        }
    }
}

impl CreateArgs {
    /// The program of the chosen template (`hello`, `fibonacci`, `crypto`
    /// or `test`); `None` for an unknown template.
    pub fn template_content(&self) -> (r: Option<String>)
        ensures
            r is Some <==> (self.template@ == "hello"@ || self.template@ == "fibonacci"@
                || self.template@ == "crypto"@ || self.template@ == "test"@),
            self.template@ == "hello"@ ==> (r matches Some(t) && framed(
                t@,
                text_if(self.debug_annotations, HELLO_HEAD@),
                digit_run(9),
                text_if(self.debug_annotations, HELLO_FOOT@),
            )),
            self.template@ == "fibonacci"@ ==> (r matches Some(t) && framed(
                t@,
                text_if(self.debug_annotations, FIBONACCI_HEAD@),
                digit_run(27),
                Seq::empty(),
            )),
            self.template@ == "crypto"@ ==> (r matches Some(t) && framed(
                t@,
                text_if(self.debug_annotations, CRYPTO_HEAD@),
                repeated(digit_run(9), 9),
                Seq::empty(),
            )),
            self.template@ == "test"@ ==> (r matches Some(t) && framed(
                t@,
                text_if(self.debug_annotations, TEST_HEAD@),
                digit_run(12),
                Seq::empty(),
            )),
    {
        let debug = self.debug_annotations;
        proof {
            reveal_strlit("hello");
            reveal_strlit("fibonacci");
            reveal_strlit("crypto");
            reveal_strlit("test");
            assert("hello"@.len() == 5);
            assert("fibonacci"@.len() == 9);
            assert("crypto"@.len() == 6);
            assert("test"@.len() == 4);
        }
        if text_is(&self.template, "hello") {
            Some(create_hello_world_template(debug))
        } else if text_is(&self.template, "fibonacci") {
            Some(create_fibonacci_template(debug))
        } else if text_is(&self.template, "crypto") {
            Some(create_crypto_template(debug))
        } else if text_is(&self.template, "test") {
            Some(create_test_template(debug))
        } else {
            None
        }
    }
}

} // verus!
