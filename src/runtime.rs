//! Text about the external runtime program.

use vstd::prelude::*;

verus! {

/// What to do when the runtime program is not installed.
pub const INSTALL_INSTRUCTIONS: &'static str = r#"
❌ TrinaryVM runtime binary not found

The 'trinaryvm' runtime binary is required for this command.

📦 Installation Options:

1. Download pre-compiled binaries:
   Visit: https://github.com/TrinaryVM/trinaryvm-core/releases
   
2. Build from source (requires access to private repository):
   git clone git@github.com:TrinaryVM/trinaryvm-core.git
   cd trinaryvm-core/runtime
   cargo build --release
   
3. Enterprise/Partner access:
   Contact: favourablegroup@gmail.com
   
4. Add to PATH:
   After installation, ensure 'trinaryvm' is in your PATH:
   export PATH="$PATH:/path/to/trinaryvm/bin"
"#;

/// Instructions for installing the runtime program.
pub fn get_install_instructions() -> (r: String)
    ensures
        r@ == INSTALL_INSTRUCTIONS@,
{
    String::from_str(INSTALL_INSTRUCTIONS)
}

} // verus!
