use vstd::prelude::*;

use crate::text::texts;

verus! {

/// Any failure of this library, carrying a description of what went wrong.
#[derive(Debug, Clone)]
pub struct BitTorrentError {
    details: String,
}

impl View for BitTorrentError {
    type V = Seq<char>;

    /// An error is its description.
    closed spec fn view(&self) -> Seq<char> {
        self.details@
    }
}

impl BitTorrentError {
    /// Create a new BitTorrentError.
    pub fn new(details: String) -> (error: BitTorrentError)
        ensures
            error@ == details@,
    {
        BitTorrentError { details }
    }

    /// The description alone.
    pub fn details(&self) -> (text: String)
        ensures
            text@ == self@,
    {
        self.details.clone()
    }

    /// The error as shown to a user.
    pub fn display(&self) -> (text: String)
        ensures
            text@ == "BitTorrent Error: "@ + self@,
    {
        "BitTorrent Error: ".to_string().concat(self.details.as_str())
    }
}

/// Texts with a separator between each two of them.
pub open spec fn joined_texts(list: Seq<Seq<char>>, separator: Seq<char>) -> Seq<char>
    decreases list.len(),
{
    if list.len() == 0 {
        seq![]
    } else if list.len() == 1 {
        list[0]
    } else {
        joined_texts(list.drop_last(), separator) + separator + list.last()
    }
}

/// The error of a failure, given the descriptions of it and of the failures that led to
/// it.
pub fn bterror_chain(chain: &Vec<String>) -> (error: BitTorrentError)
    ensures
        error@ == joined_texts(texts(chain@), ": "@),
{
    let ghost all = texts(chain@);
    let mut text = String::new();
    let mut i: usize = 0;
    assert(text@ =~= joined_texts(all.take(0), ": "@));
    while i < chain.len()
        invariant
            0 <= i <= chain.len(),
            all == texts(chain@),
            text@ == joined_texts(all.take(i as int), ": "@),
        decreases chain.len() - i,
    {
        assert(all.take(i + 1).drop_last() =~= all.take(i as int));
        assert(all.take(i + 1).last() == chain@[i as int]@);
        if i > 0 {
            text.append(": ");
        }
        text.append(chain[i].as_str());
        i = i + 1;
        assert(text@ =~= joined_texts(all.take(i as int), ": "@));
    }
    assert(all.take(i as int) =~= all);
    BitTorrentError::new(text)
}

/// What a result stands for: a value, or the description of an error.
pub open spec fn outcome<T: View>(result: Result<T, BitTorrentError>) -> Result<T::V, Seq<char>> {
    match result {
        Ok(value) => Ok(value@),
        Err(error) => Err(error@),
    }
}

/// An error with a fixed description.
pub fn bterror(details: &str) -> (error: BitTorrentError)
    ensures
        error@ == details@,
{
    BitTorrentError::new(details.to_string())
}

/// An error whose description is a fixed text followed by a varying one.
pub fn bterror_with(details: &str, subject: &str) -> (error: BitTorrentError)
    ensures
        error@ == details@ + subject@,
{
    BitTorrentError::new(details.to_string().concat(subject))
}

/// A chain of texts is told whole and in its order, with the separator between each two.
pub proof fn chain_is_told_whole(a: Seq<Seq<char>>, b: Seq<Seq<char>>, separator: Seq<char>)
    requires
        a.len() > 0,
        b.len() > 0,
    ensures
        joined_texts(a + b, separator) == joined_texts(a, separator) + separator + joined_texts(
            b,
            separator,
        ),
        a.len() == 1 ==> joined_texts(a, separator) == a[0],
    decreases b.len(),
{
    let all = a + b;
    assert(all.drop_last() =~= a + b.drop_last());
    assert(all.last() == b.last());
    if b.len() == 1 {
        assert(all.drop_last() =~= a);
    } else {
        chain_is_told_whole(a, b.drop_last(), separator);
        assert(joined_texts(all, separator) =~= joined_texts(a, separator) + separator
            + joined_texts(b, separator));
    }
}

} // verus!
