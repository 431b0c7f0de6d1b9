//! Preparing the identity-database lookup: the exact argument
//! sequence of the external `getent` query. The spawn itself, and the
//! output stream it leaves open for the sandbox, live outside the
//! verified library.

use vstd::prelude::*;

verus! {

/// Which identity database a lookup queries.
#[derive(Clone, Copy, Debug, PartialEq, Eq, Structural)]
pub enum Database {
    Passwd,
    Group,
}

/// The database selection argument.
pub open spec fn db_token(db: Database) -> Seq<char> {
    match db {
        Database::Passwd => "passwd"@,
        Database::Group => "group"@,
    }
}

/// One lookup's full argument sequence: the database name, a literal
/// empty positional argument (a historical quirk preserved for
/// compatibility), then the requested names, in order and unmodified.
pub open spec fn spec_lookup_args(db: Database, keys: Seq<Seq<char>>) -> Seq<Seq<char>> {
    seq![db_token(db), ""@] + keys
}

/// Builds the arguments of one `getent` invocation. The caller spawns
/// the process and keeps its standard output open until it is mapped
/// into the sandbox's descriptor table.
pub fn lookup_args(db: Database, keys: &Vec<String>) -> (r: Vec<String>)
    ensures
        r.deep_view() == spec_lookup_args(db, keys.deep_view()),
{
    let mut r: Vec<String> = Vec::new();
    let flag: &'static str = match db {
        Database::Passwd => "passwd",
        Database::Group => "group",
    };
    r.push(flag.to_owned());
    r.push("".to_owned());
    proof {
        assert(r.deep_view() =~= seq![db_token(db), ""@] + keys.deep_view().take(0));
    }
    let mut i: usize = 0;
    while i < keys.len()
        invariant
            0 <= i <= keys@.len(),
            r.deep_view() == seq![db_token(db), ""@] + keys.deep_view().take(i as int),
        decreases keys@.len() - i,
    {
        r.push(keys[i].clone());
        proof {
            let prefix: Seq<Seq<char>> = seq![db_token(db), ""@];
            let step: Seq<Seq<char>> = seq![keys.deep_view()[i as int]];
            assert(keys.deep_view().take(i + 1) =~= keys.deep_view().take(i as int) + step);
            assert(r.deep_view() =~= (prefix + keys.deep_view().take(i as int)) + step);
            assert((prefix + keys.deep_view().take(i as int)) + step =~= prefix + (
            keys.deep_view().take(i as int) + step));
            assert(r.deep_view() == prefix + keys.deep_view().take(i + 1));
        }
        i += 1;
    }
    proof {
        assert(keys.deep_view().take(keys@.len() as int) =~= keys.deep_view());
        assert(r.deep_view() =~= spec_lookup_args(db, keys.deep_view()));
    }
    r
}

} // verus!
