//! The options of the command line, as plain values.
use vstd::prelude::*;
use vstd::string::StringExecFns;

verus! {

/// An option that could not be understood.
#[derive(Debug)]
pub struct CliError {
    pub msg: String,
}

/// The layout of the exported rows.
#[derive(Debug, Clone, Copy, PartialEq, Eq, Structural)]
pub enum Format {
    AnkiDict,
}

/// Asks for the session cookie to be registered.
pub struct Auth {}

/// What an export is asked to do.
pub struct Export {
    /// Prefix rules, in the order they are applied.
    pub prefix: Vec<String>,
    /// Fixed values appended to every row.
    pub append: Vec<String>,
    pub format: Format,
    /// Output file name, `-` for standard output.
    pub output: String,
    /// Permalink or identifier of the node to export.
    pub root: String,
}

pub enum CliResult {
    CliAuth(Auth),
    CliExport(Export),
}

impl Format {
    /// Reads a format name; `anki-dict` is the only one.
    pub fn from_str(s: &str) -> (r: Result<Format, CliError>)
        ensures
            r is Ok <==> s@ == "anki-dict"@,
            r matches Ok(f) ==> f == Format::AnkiDict,
    {
        let name = crate::text::chars_of(s);
        let expected = crate::text::chars_of("anki-dict");
        let mut same = name.len() == expected.len();
        let mut i: usize = 0;
        while same && i < name.len()
            invariant
                name@ == s@,
                expected@ == "anki-dict"@,
                same ==> name@.len() == expected@.len(),
                same ==> forall|k: int| 0 <= k < i ==> name@[k] == expected@[k],
                !same ==> name@ != expected@,
                i <= name@.len(),
            decreases name.len() - i,
        {
            if name[i] != expected[i] {
                same = false;
            }
            i = i + 1;
        }
        if same {
            assert(name@ =~= expected@);
            Ok(Format::AnkiDict)
        } else {
            let mut msg = String::from_str("Can't parse format \"");
            msg.append(s);
            msg.append("\"");
            Err(CliError { msg })
        }
    }
}

} // verus!
