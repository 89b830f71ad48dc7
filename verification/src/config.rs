//! What the program is started with.

use vstd::prelude::*;

verus! {

/// The settings of one running store, made once at start-up and handed to
/// every operation.
#[derive(Clone, Debug)]
pub struct Args {
    /// Address to listen on.
    pub address: String,
    /// Port to listen on.
    pub port: u16,
    /// The largest upload accepted, in bytes.
    pub max_file_size: u64,
    /// The folder that holds the uploaded files.
    pub folder: String,
    /// Whether an upload replaces a stored file of the same name. Where it
    /// does not, such an upload is refused.
    pub overwrite: bool,
}

impl Default for Args {
    /// Listen on every address at port 8000, store under `uploads`, accept
    /// up to one gibibyte, and let a later upload replace an earlier one.
    fn default() -> (args: Args)
        ensures
            args.address@ == "0.0.0.0"@,
            args.port == 8000,
            args.max_file_size == 1_073_741_824,
            args.folder@ == "uploads"@,
            args.overwrite,
    {
        Args {
            address: "0.0.0.0".to_owned(),
            port: 8000,
            max_file_size: 1_073_741_824,
            folder: "uploads".to_owned(),
            overwrite: true,
        }
    }
}

} // verus!
