use vstd::prelude::*;

verus! {

/// A failure of the external build driver that assembles and links the
/// generated text.  The driver itself runs outside the library; these are
/// the distinct failures it reports, each carrying the diagnostic text
/// captured at that step.
#[derive(Debug, Clone)]
pub enum AsmError {
    /// Reading, writing or removing an intermediate file failed.
    FileSystem(String),
    /// A subprocess could not be launched at all; the first field names it.
    Command(&'static str, String),
    /// The assembler exited unsuccessfully with the captured diagnostics.
    NasmErr(String),
    /// The linker exited unsuccessfully with the captured diagnostics.
    LinkerErr(String),
}

impl AsmError {
    /// The human-readable report for this failure.
    pub fn describe(&self) -> (r: String)
        ensures
            match self {
                AsmError::FileSystem(err) => r@ == "filesystem error:\n"@ + err@,
                AsmError::Command(cmd, err) => r@ == "error executing "@ + cmd@ + ":\n"@ + err@,
                AsmError::NasmErr(msg) => r@ == "nasm failed with:\n"@ + msg@,
                AsmError::LinkerErr(msg) => r@ == "linker failed with:\n"@ + msg@,
            },
    {
        let mut out = String::new();
        match self {
            AsmError::FileSystem(err) => {
                out.append("filesystem error:\n");
                out.append(err.as_str());
            },
            AsmError::Command(cmd, err) => {
                out.append("error executing ");
                out.append(cmd);
                out.append(":\n");
                out.append(err.as_str());
            },
            AsmError::NasmErr(msg) => {
                out.append("nasm failed with:\n");
                out.append(msg.as_str());
            },
            AsmError::LinkerErr(msg) => {
                out.append("linker failed with:\n");
                out.append(msg.as_str());
            },
        }
        out
    }
}

} // verus!
