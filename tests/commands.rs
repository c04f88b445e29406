use trinaryvm_cli::{
    create_crypto_template, create_fibonacci_template, create_hello_world_template,
    create_test_template, generate_optimization_suggestions, get_install_instructions,
    only_symbols_and_space, tetragram_chars, validate_symbols, BenchmarkArgs, BenchmarkMode,
    Conversion, ConvertArgs, CreateArgs, ExecuteArgs, InvalidChar, OutputFormat,
};

fn run(from: u32, len: u32) -> String {
    (from..from + len).map(|d| char::from_u32(0x1D306 + d).unwrap()).collect()
}

fn convert_args(from: &str, to: &str) -> ConvertArgs {
    ConvertArgs {
        input: "in".to_string(),
        output: "out.sm".to_string(),
        from: from.to_string(),
        to: to.to_string(),
        text: false,
        number: false,
    }
}

#[test]
fn conversions_are_chosen_by_format_in_any_case() {
    assert_eq!(convert_args("NUMBER", "Sm").conversion(), Some(Conversion::NumberToSymbols));
    assert_eq!(convert_args("text", "sm").conversion(), Some(Conversion::TextToSymbols));
    assert_eq!(convert_args("sm", "number").conversion(), Some(Conversion::SymbolsToNumber));
    assert_eq!(convert_args("SM", "TEXT").conversion(), Some(Conversion::SymbolsToText));
    assert_eq!(convert_args("TritVM", "sm").conversion(), Some(Conversion::BytecodeToSymbols));
    assert_eq!(convert_args("hex", "sm").conversion(), None);
    assert_eq!(convert_args("sm", "sm").conversion(), None);
}

#[test]
fn output_format_defaults_to_summary() {
    let mut args = ExecuteArgs {
        program: "p.sm".to_string(),
        debug: false,
        trace: None,
        memory_limit: 81,
        gas_limit: 10_000,
        verbose: false,
        cyberpunk: false,
        save_sm: None,
        output_format: "json".to_string(),
    };
    assert_eq!(args.output_mode(), OutputFormat::Json);
    args.output_format = "text".to_string();
    assert_eq!(args.output_mode(), OutputFormat::Text);
    args.output_format = "other".to_string();
    assert_eq!(args.output_mode(), OutputFormat::Summary);
}

#[test]
fn benchmark_modes() {
    let mut args = BenchmarkArgs {
        operations: 1000,
        mode: "parse".to_string(),
        file: None,
        json: false,
        cyberpunk: false,
        save_sm: None,
        iterations: 100,
    };
    assert_eq!(args.benchmark_mode(), Some(BenchmarkMode::Parse));
    args.mode = "execute".to_string();
    assert_eq!(args.benchmark_mode(), Some(BenchmarkMode::Execute));
    args.mode = "validate".to_string();
    assert_eq!(args.benchmark_mode(), Some(BenchmarkMode::Validate));
    args.mode = "fly".to_string();
    assert_eq!(args.benchmark_mode(), None);
}

#[test]
fn templates_hold_runs_of_symbols() {
    assert_eq!(create_hello_world_template(false), run(0, 9));
    assert_eq!(create_fibonacci_template(false), run(0, 27));
    assert_eq!(create_crypto_template(false), run(0, 9).repeat(9));
    assert_eq!(create_test_template(false), run(0, 12));
}

#[test]
fn debug_templates_carry_comments() {
    let hello = create_hello_world_template(true);
    assert!(hello.starts_with("// Supreme Mystery Hello World Template\n"));
    assert!(hello.contains(&run(0, 9)));
    assert!(hello.ends_with("// Each symbol represents a 4-trit instruction nibble\n"));
    let test = create_test_template(true);
    assert_eq!(test, format!("// Test template for validation\n// Contains all instruction types\n\n{}", run(0, 12)));
}

#[test]
fn templates_are_chosen_by_name() {
    let args = |t: &str| CreateArgs { output: "x".to_string(), template: t.to_string(), debug_annotations: false };
    assert_eq!(args("hello").template_content(), Some(run(0, 9)));
    assert_eq!(args("crypto").template_content().map(|s| s.chars().count()), Some(81));
    assert_eq!(args("poem").template_content(), None);
}

#[test]
fn install_instructions_name_the_runtime() {
    let text = get_install_instructions();
    assert!(text.contains("TrinaryVM runtime binary not found"));
    assert!(text.contains("export PATH=\"$PATH:/path/to/trinaryvm/bin\""));
}

#[test]
fn validation_counts_symbols_and_reports_others() {
    let content = format!("{} x\n{}\u{7}y", run(0, 1), run(5, 1));
    let report = validate_symbols(&content);
    assert_eq!(report.valid_symbols, 2);
    assert_eq!(
        report.invalid,
        vec![InvalidChar { character: 'x', position: 2 }, InvalidChar { character: 'y', position: 6 }]
    );
    assert!(validate_symbols(&run(0, 81)).invalid.is_empty());
}

#[test]
fn symbol_filters() {
    let content = format!("a{}b {}", run(3, 1), run(80, 1));
    assert_eq!(tetragram_chars(&content), vec!['\u{1D309}', '\u{1D356}']);
    assert!(only_symbols_and_space(&format!("{} \n{}", run(0, 2), run(7, 3))));
    assert!(!only_symbols_and_space(&content));
}

#[test]
fn optimization_suggestions() {
    assert_eq!(
        generate_optimization_suggestions(&[], 81),
        vec!["Even tetragram count for optimal gas efficiency".to_string()]
    );
    assert_eq!(
        generate_optimization_suggestions(&[], 162),
        vec!["Program is already optimally configured".to_string()]
    );
    assert_eq!(generate_optimization_suggestions(&[], 4).len(), 4);
    assert_eq!(generate_optimization_suggestions(&[], 1).len(), 5);
}
