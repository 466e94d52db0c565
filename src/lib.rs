pub mod calling_conventions;
pub mod error;
mod json;
pub mod number;
pub mod syscall;
pub mod text;

pub use calling_conventions::CallingConventionForArch;
pub use error::{ErrorKind, RsysearcherError};
pub use json::{number_text, text_or_empty};
pub use syscall::{catalog_records, is_selected, no_result_message, SyscallForArch, SyscallRecord};
