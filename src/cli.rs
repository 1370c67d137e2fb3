//! The command line of the tool, and where its configuration lives.
use vstd::prelude::*;

verus! {

#[verifier::external_type_specification]
#[verifier::external_body]
pub struct ExPathBuf(std::path::PathBuf);

/// The arguments of a run.
#[derive(Debug)]
pub struct Cli {
    /// The configuration file; `~/.config/mkanki.toml` where not given.
    pub config: Option<std::path::PathBuf>,
    /// Where to write the package.
    pub output: Option<std::path::PathBuf>,
    /// A prefix of the name of the deck to fill.
    pub deck: Option<String>,
    /// A Markdown file, or a glob pattern for several.
    pub input: String,
}

/// The configuration file of the given user.
pub open spec fn config_path_spec(user: Seq<char>) -> Seq<char> {
    seq!['/', 'h', 'o', 'm', 'e', '/'] + user + seq![
        '/',
        '.',
        'c',
        'o',
        'n',
        'f',
        'i',
        'g',
        '/',
        'm',
        'k',
        'a',
        'n',
        'k',
        'i',
        '.',
        't',
        'o',
        'm',
        'l',
    ]
}

/// The configuration file of the given user: `/home/<user>/.config/mkanki.toml`.
pub fn default_config_path(user: &str) -> (r: String)
    ensures
        r@ == config_path_spec(user@),
{
    let mut r = String::from_str("/home/");
    r.append(user);
    r.append("/.config/mkanki.toml");
    proof {
        reveal_strlit("/home/");
        reveal_strlit("/.config/mkanki.toml");
    }
    assert(r@ =~= config_path_spec(user@));
    r
}

} // verus!
