use vstd::prelude::*;

verus! {

/// Why a block of command output could not be read.
#[derive(Debug, Clone, Copy, PartialEq, Eq, Structural)]
pub enum GuitParseError {
    /// A status character outside the recognised set.
    UnknownStatusTable,
    /// A status line that does not have the shape of a status line.
    MalformedStatusOutput,
    /// A commit block without its author or its date.
    MalformedLogBlock,
}

impl GuitParseError {
    /// The sentence shown to the user for this error.
    pub open spec fn message(self) -> Seq<char> {
        match self {
            GuitParseError::UnknownStatusTable => "Unknown status."@,
            GuitParseError::MalformedStatusOutput => "Malformed status output."@,
            GuitParseError::MalformedLogBlock => "Malformed log block."@,
        }
    }

    pub fn to_string(&self) -> (text: String)
        ensures
            text@ == self.message(),
    {
        match self {
            GuitParseError::UnknownStatusTable => "Unknown status.".to_owned(),
            GuitParseError::MalformedStatusOutput => "Malformed status output.".to_owned(),
            GuitParseError::MalformedLogBlock => "Malformed log block.".to_owned(),
        }
    }
}

/// The records read so far followed by what the rest of the input gives: the
/// rest's records after `done`, or the rest's error.
pub open spec fn prepend<T>(done: Seq<T>, rest: Result<Seq<T>, GuitParseError>) -> Result<
    Seq<T>,
    GuitParseError,
> {
    match rest {
        Ok(records) => Ok(done + records),
        Err(e) => Err(e),
    }
}

/// All or nothing: the records of `results`, in order, where each of them
/// is a record; else the first error among them.
pub open spec fn collect<T>(results: Seq<Result<T, GuitParseError>>) -> Result<
    Seq<T>,
    GuitParseError,
>
    decreases results.len(),
{
    if results.len() == 0 {
        Ok(Seq::empty())
    } else {
        match results[0] {
            Ok(record) => prepend(seq![record], collect(results.drop_first())),
            Err(e) => Err(e),
        }
    }
}

/// `results[k]` is an error and nothing before it is.
pub open spec fn is_first_error<T>(results: Seq<Result<T, GuitParseError>>, k: int) -> bool {
    &&& 0 <= k < results.len()
    &&& results[k] is Err
    &&& forall|j: int| 0 <= j < k ==> (#[trigger] results[j]) is Ok
}

/// Every one of `results` is a record.
pub open spec fn all_ok<T>(results: Seq<Result<T, GuitParseError>>) -> bool {
    forall|i: int| 0 <= i < results.len() ==> (#[trigger] results[i]) is Ok
}

/// Records can be handed to `prepend` one part after the other.
pub proof fn lemma_prepend_twice<T>(a: Seq<T>, b: Seq<T>, rest: Result<Seq<T>, GuitParseError>)
    ensures
        prepend(a, prepend(b, rest)) == prepend(a + b, rest),
{
    match rest {
        Ok(records) => {
            assert(a + (b + records) =~= (a + b) + records);
        },
        Err(_) => {},
    }
}

/// Nothing prepended changes nothing.
pub proof fn lemma_prepend_nothing<T>(rest: Result<Seq<T>, GuitParseError>)
    ensures
        prepend(Seq::empty(), rest) == rest,
{
    match rest {
        Ok(records) => {
            assert(Seq::<T>::empty() + records =~= records);
        },
        Err(_) => {},
    }
}

/// What `collect` gives: as many records as there are results, each the
/// record of the result in its place; or the error that stands first.
pub proof fn lemma_collect<T>(results: Seq<Result<T, GuitParseError>>)
    ensures
        match collect(results) {
            Ok(records) => {
                &&& all_ok(results)
                &&& records.len() == results.len()
                &&& forall|i: int|
                    0 <= i < results.len() ==> #[trigger] results[i] == Ok::<T, GuitParseError>(
                        records[i],
                    )
            },
            Err(e) => exists|k: int|
                is_first_error(results, k) && results[k] == Err::<T, GuitParseError>(e),
        },
    decreases results.len(),
{
    if results.len() > 0 {
        let rest = results.drop_first();
        lemma_collect(rest);
        match results[0] {
            Err(e) => {
                assert(is_first_error(results, 0));
            },
            Ok(record) => {
                match collect(rest) {
                    Ok(records_rest) => {
                        let records = seq![record] + records_rest;
                        assert forall|i: int| 0 <= i < results.len() implies (
                        #[trigger] results[i]) is Ok by {
                            if i > 0 {
                                assert(results[i] == rest[i - 1]);
                            }
                        }
                        assert forall|i: int| 0 <= i < results.len() implies #[trigger] results[i]
                            == Ok::<T, GuitParseError>(records[i]) by {
                            if i > 0 {
                                assert(results[i] == rest[i - 1]);
                                assert(records[i] == records_rest[i - 1]);
                            }
                        }
                    },
                    Err(e) => {
                        let k = choose|k: int|
                            is_first_error(rest, k) && rest[k] == Err::<T, GuitParseError>(e);
                        assert(results[k + 1] == rest[k]);
                        assert forall|j: int| 0 <= j < k + 1 implies (#[trigger] results[j])
                            is Ok by {
                            if j > 0 {
                                assert(results[j] == rest[j - 1]);
                            }
                        }
                        assert(is_first_error(results, k + 1));
                    },
                }
            },
        }
    }
}

/// `collect` succeeds exactly when there is no error to find.
pub proof fn lemma_collect_ok<T>(results: Seq<Result<T, GuitParseError>>)
    ensures
        collect(results) is Ok <==> all_ok(results),
{
    lemma_collect(results);
    if let Err(e) = collect(results) {
        let k = choose|k: int|
            is_first_error(results, k) && results[k] == Err::<T, GuitParseError>(e);
        assert(results[k] is Err);
    }
}

/// Where an error stands first, it is what `collect` gives, whatever
/// follows it.
pub proof fn lemma_collect_first_error<T>(results: Seq<Result<T, GuitParseError>>, k: int)
    requires
        is_first_error(results, k),
    ensures
        collect(results) == Err::<Seq<T>, GuitParseError>(results[k]->Err_0),
{
    lemma_collect(results);
    match collect(results) {
        Ok(records) => {
            assert(results[k] is Ok);
        },
        Err(e) => {
            let k2 = choose|k2: int|
                is_first_error(results, k2) && results[k2] == Err::<T, GuitParseError>(e);
            if k2 < k {
                assert(results[k2] is Ok);
            } else if k < k2 {
                assert(results[k] is Ok);
            }
        },
    }
}

/// `collect` of a first result and others: the first result's error, or its
/// record before what the others give.
pub proof fn lemma_collect_first<T>(
    first: Result<T, GuitParseError>,
    others: Seq<Result<T, GuitParseError>>,
)
    ensures
        collect(seq![first] + others) == match first {
            Ok(record) => prepend(seq![record], collect(others)),
            Err(e) => Err(e),
        },
{
    assert((seq![first] + others).drop_first() =~= others);
}

} // verus!
