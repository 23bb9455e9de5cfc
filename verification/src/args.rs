//! The settings of a run, as the command line gives them.

use vstd::prelude::*;
use vstd::string::*;

use crate::valid_proto::names_of;

verus! {

/// The settings of a run.
#[derive(Debug, PartialEq, Eq)]
pub struct Args {
    /// The address of the store.
    pub db_url: String,
    /// The collection, which is also the name of the message type.
    pub table_name: String,
    /// The names to leave out of validation, separated by commas.
    pub ignore_list: String,
    /// Whether to preview the changes without writing them.
    pub dry_run: bool,
    /// Whether to list the ids of the documents without their errors.
    pub stat: bool,
    /// The number of documents to fetch with each request.
    pub limit: usize,
    /// The schema file.
    pub proto_path: String,
    /// The directory that the schema file's imports are looked up in.
    pub proto_dir: String,
    /// The directory of the transform scripts.
    pub script_dir: String,
}

/// The parts of `text` between its commas. A text without a comma is one part.
pub open spec fn comma_parts(text: Seq<char>) -> Seq<Seq<char>>
    decreases text.len(),
{
    if text.len() == 0 {
        seq![Seq::empty()]
    } else {
        let head = comma_parts(text.drop_last());
        if text.last() == ',' {
            head.push(Seq::empty())
        } else {
            head.drop_last().push(head.last().push(text.last()))
        }
    }
}

/// The parts that are not empty, in their order.
pub open spec fn nonempty_parts(parts: Seq<Seq<char>>) -> Seq<Seq<char>>
    decreases parts.len(),
{
    if parts.len() == 0 {
        Seq::empty()
    } else if parts.last().len() == 0 {
        nonempty_parts(parts.drop_last())
    } else {
        nonempty_parts(parts.drop_last()).push(parts.last())
    }
}

/// The names in a comma-separated list.
pub open spec fn listed_names(text: Seq<char>) -> Seq<Seq<char>> {
    nonempty_parts(comma_parts(text))
}

impl Args {
    /// The names of the ignore list: the parts of `ignore_list` between its
    /// commas, without the empty ones.
    pub fn ignore_names(&self) -> (names: Vec<String>)
        ensures
            names_of(names@) == listed_names(self.ignore_list@),
    {
        let text: &str = self.ignore_list.as_str();
        let n: usize = text.unicode_len();
        let mut names: Vec<String> = Vec::new();
        let mut start: usize = 0;
        let mut i: usize = 0;
        let ghost mut done: Seq<Seq<char>> = Seq::empty();
        assert(text@.take(0) =~= Seq::<char>::empty());
        assert(text@.subrange(0, 0) =~= Seq::<char>::empty());
        assert(comma_parts(text@.take(0)) =~= done.push(text@.subrange(0, 0)));
        assert(names_of(names@) =~= nonempty_parts(done));
        while i < n
            invariant
                start <= i <= n,
                n == text@.len(),
                comma_parts(text@.take(i as int)) == done.push(
                    text@.subrange(start as int, i as int),
                ),
                names_of(names@) == nonempty_parts(done),
            decreases n - i,
        {
            let ghost current = text@.subrange(start as int, i as int);
            let ghost seen = text@.take(i as int);
            assert(text@.take(i + 1).drop_last() =~= seen);
            assert(text@.take(i + 1).last() == text@[i as int]);
            assert(done.push(current).drop_last() =~= done);
            if text.get_char(i) == ',' {
                if start < i {
                    names.push(String::from_str(text.substring_char(start, i)));
                    assert(names_of(names@) =~= nonempty_parts(done).push(current));
                }
                proof {
                    done = done.push(current);
                }
                start = i + 1;
                assert(text@.subrange(start as int, i + 1) =~= Seq::<char>::empty());
            } else {
                assert(text@.subrange(start as int, i + 1) =~= current.push(text@[i as int]));
            }
            i += 1;
        }
        assert(text@.take(n as int) =~= text@);
        let ghost current = text@.subrange(start as int, n as int);
        assert(done.push(current).drop_last() =~= done);
        if start < n {
            names.push(String::from_str(text.substring_char(start, n)));
            assert(names_of(names@) =~= nonempty_parts(done).push(current));
        }
        names
    }
}

} // verus!
