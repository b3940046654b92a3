use vstd::prelude::*;
use vstd::std_specs::cmp::PartialEqSpec;

verus! {

/// What one search asks for: the query, the name of the source to read, and
/// whether case counts. Two configurations are equal when their query and source
/// name are; the mode is not compared.
#[derive(Debug)]
pub struct Config {
    pub query: String,
    pub filename: String,
    pub case_sensitive: bool,
}

/// The message of a failed resolution.
pub open spec fn missing_arguments_message() -> Seq<char> {
    "not enough arguments"@
}

impl Config {
    /// Resolves a configuration from the argument list (program name, query,
    /// source name; any further values are ignored) and from whether the
    /// case-insensitivity toggle is set. Fails when the query or the source name
    /// is absent; empty values are accepted as given.
    pub fn new(args: &[String], case_insensitive: bool) -> (r: Result<Config, &'static str>)
        ensures
            r is Ok <==> args@.len() >= 3,
            r is Err ==> r->Err_0@ == missing_arguments_message(),
            r is Ok ==> {
                &&& r->Ok_0.query@ == args@[1]@
                &&& r->Ok_0.filename@ == args@[2]@
                &&& r->Ok_0.case_sensitive == !case_insensitive
            },
    {
        if args.len() < 3 {
            proof {
                reveal_strlit("not enough arguments");
            }
            return Err("not enough arguments");
        }
        let query = args[1].clone();
        let filename = args[2].clone();
        Ok(Config { query, filename, case_sensitive: !case_insensitive })
    }
}

impl PartialEq for Config {
    fn eq(&self, other: &Config) -> (r: bool)
        ensures
            r == (self.query@ == other.query@ && self.filename@ == other.filename@),
    {
        self.query == other.query && self.filename == other.filename
    }
}

impl vstd::std_specs::cmp::PartialEqSpecImpl for Config {
    open spec fn obeys_eq_spec() -> bool {
        true
    }

    open spec fn eq_spec(&self, other: &Config) -> bool {
        self.query@ == other.query@ && self.filename@ == other.filename@
    }
}

/// Configurations resolved from the same arguments are equal whatever the
/// case-insensitivity toggle was: equality compares the query and the source name
/// only.
pub proof fn lemma_equal_whatever_the_mode(a: Config, b: Config)
    requires
        a.query@ == b.query@,
        a.filename@ == b.filename@,
    ensures
        a.eq_spec(&b),
        b.eq_spec(&a),
{
}

} // verus!
