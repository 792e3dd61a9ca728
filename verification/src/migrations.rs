//! Which schema migration files run, and in what order.

use vstd::prelude::*;

use crate::text::{
    chars_less, chars_lt, chars_of, ends_with, lemma_chars_lt_irreflexive, lemma_chars_lt_transitive,
    owned, string_views,
};

verus! {

broadcast use vstd::seq_lib::group_to_multiset_ensures;

/// Whether a file name is a migration: it has the extension "sql" (so ends with
/// ".sql", and the dot is not the name's first character).
pub open spec fn is_migration_file(name: Seq<char>) -> bool {
    name.len() > 4 && ends_with(name, ".sql"@)
}

/// The migration files among `names`, in the order given.
pub open spec fn migration_files(names: Seq<Seq<char>>) -> Seq<Seq<char>>
    decreases names.len(),
{
    if names.len() == 0 {
        Seq::empty()
    } else {
        let rest = migration_files(names.drop_last());
        if is_migration_file(names.last()) {
            rest.push(names.last())
        } else {
            rest
        }
    }
}

/// Names in ascending order (equal names side by side).
pub open spec fn names_sorted(s: Seq<Seq<char>>) -> bool {
    forall|i: int, j: int| 0 <= i < j < s.len() ==> !chars_lt(#[trigger] s[j], #[trigger] s[i])
}

/// Whether a file name is a migration file.
pub fn is_migration_name(name: &str) -> (b: bool)
    ensures
        b == is_migration_file(name@),
{
    let cs = chars_of(name);
    let n = cs.len();
    if n <= 4 {
        return false;
    }
    let b = cs[n - 4] == '.' && cs[n - 3] == 's' && cs[n - 2] == 'q' && cs[n - 1] == 'l';
    proof {
        reveal_strlit(".sql");
        let tail = name@.skip(name@.len() - 4);
        if b {
            assert(tail =~= ".sql"@);
        } else {
            assert(tail != ".sql"@) by {
                if tail == ".sql"@ {
                    assert(tail[0] == '.' && tail[1] == 's' && tail[2] == 'q' && tail[3] == 'l');
                }
            }
        }
    }
    b
}

/// The migration files among the names in a directory, in the order they are
/// applied: ascending by name.
pub fn migration_order(names: &[String]) -> (r: Vec<String>)
    ensures
        names_sorted(string_views(r@)),
        string_views(r@).to_multiset() == migration_files(string_views(names@)).to_multiset(),
{
    let ghost all = string_views(names@);
    let mut out: Vec<String> = Vec::new();
    let mut i: usize = 0;
    while i < names.len()
        invariant
            i <= names@.len(),
            all == string_views(names@),
            names_sorted(string_views(out@)),
            string_views(out@).to_multiset() == migration_files(all.take(i as int)).to_multiset(),
        decreases names@.len() - i,
    {
        proof {
            assert(all.take(i + 1).drop_last() == all.take(i as int));
            assert(all.take(i + 1).last() == all[i as int]);
        }
        let name = &names[i];
        if is_migration_name(name.as_str()) {
            let ghost before = string_views(out@);
            let x = chars_of(name.as_str());
            let n_out = out.len();
            let mut p: usize = 0;
            let mut go = p < out.len() && {
                let y = chars_of(out[p].as_str());
                !chars_less(x.as_slice(), y.as_slice())
            };
            while go
                invariant
                    p <= out@.len(),
                    n_out == out@.len(),
                    before == string_views(out@),
                    i < all.len(),
                    x@ == all[i as int],
                    forall|q: int| 0 <= q < p ==> !chars_lt(x@, #[trigger] before[q]),
                    go ==> p < out@.len() && !chars_lt(x@, before[p as int]),
                    !go ==> p == out@.len() || chars_lt(x@, before[p as int]),
                decreases out@.len() - p,
            {
                p = p + 1;
                go = p < out.len() && {
                    let y = chars_of(out[p].as_str());
                    !chars_less(x.as_slice(), y.as_slice())
                };
            }
            out.insert(p, name.clone());
            proof {
                let after = string_views(out@);
                assert(after =~= before.insert(p as int, x@));
                assert forall|a: int, b: int| 0 <= a < b < after.len() implies !chars_lt(
                    #[trigger] after[b],
                    #[trigger] after[a],
                ) by {
                    if b < p {
                        assert(after[a] == before[a] && after[b] == before[b]);
                    } else if b == p {
                        assert(after[a] == before[a] && after[b] == x@);
                    } else if a < p {
                        assert(after[a] == before[a] && after[b] == before[b - 1]);
                    } else if a == p {
                        assert(after[a] == x@ && after[b] == before[b - 1]);
                        assert(chars_lt(x@, before[p as int]));
                        if chars_lt(before[b - 1], x@) {
                            lemma_chars_lt_transitive(before[b - 1], x@, before[p as int]);
                            if b - 1 == p {
                                lemma_chars_lt_irreflexive(before[p as int]);
                            } else {
                                assert(!chars_lt(before[b - 1], before[p as int]));
                            }
                        }
                    } else {
                        assert(after[a] == before[a - 1] && after[b] == before[b - 1]);
                    }
                }
            }
        }
        i = i + 1;
    }
    proof {
        assert(all.take(names@.len() as int) == all);
    }
    out
}

/// The migration an existing database created before migrations were tracked is
/// taken to have applied already.
pub open spec fn spec_baseline_migration() -> Seq<char> {
    "001_core.sql"@
}

/// The migration to record as applied without running it: the core schema, when
/// the database already has its tables.
pub fn baseline_migration(has_core_tables: bool) -> (r: Option<String>)
    ensures
        match r {
            Some(name) => has_core_tables && name@ == spec_baseline_migration(),
            None => !has_core_tables,
        },
{
    if has_core_tables {
        Some(owned("001_core.sql"))
    } else {
        None
    }
}

} // verus!
