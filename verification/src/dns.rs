//! What a host resolver makes of the answer of a DNS client.
//!
//! The client sends the question and reads the wire; it is not part of this
//! crate. What it found is handed over as plain values, and the functions
//! here decide what the resolver answers.
use vstd::prelude::*;
use vstd::string::StringExecFns;
use crate::error::Error;
use crate::ip_list::IpList;
use crate::name::{name_text, Name};
use crate::net::IpAddr;
use crate::poll::{Async, Poll};

verus! {

/// What the poll of a query brought.
#[derive(Debug)]
pub enum QueryEvent {
    /// Nothing yet.
    NotReady,
    /// The answer has come: its address records, each of them read or not,
    /// with the cause in words where it could not be read.
    Answer(Vec<Result<IpAddr, String>>),
    /// The answer has come and cannot be read at all: the cause, in words.
    Unreadable(String),
    /// The client refused the question, or has no name to ask for.
    BadQuestion,
    /// The query failed otherwise: the cause, in words.
    Failed(String),
}

/// How many records stand before the first that could not be read; all of
/// them where each could.
pub open spec fn readable(records: Seq<Result<IpAddr, String>>) -> nat
    decreases records.len(),
{
    if records.len() == 0 || records[0] is Err {
        0
    } else {
        1 + readable(records.drop_first())
    }
}

/// The addresses of records that were all read.
pub open spec fn addresses(records: Seq<Result<IpAddr, String>>) -> Seq<IpAddr> {
    Seq::new(records.len(), |i: int| records[i]->Ok_0)
}

/// The host as the client is asked for it: fully qualified, with a dot at
/// its end.
pub open spec fn question_text(name: Name) -> Seq<char> {
    name@.host + seq!['.']
}

/// `readable` stops at the first record that could not be read.
proof fn lemma_readable(records: Seq<Result<IpAddr, String>>, i: int)
    requires
        0 <= i <= records.len(),
        forall|k: int| 0 <= k < i ==> (#[trigger] records[k]) is Ok,
    ensures
        i < records.len() && records[i] is Err ==> readable(records) == i,
        i == records.len() ==> readable(records) == i,
    decreases i,
{
    if i > 0 {
        let rest = records.drop_first();
        assert(records[0] is Ok);
        assert forall|k: int| 0 <= k < i - 1 implies (#[trigger] rest[k]) is Ok by {
            assert(rest[k] == records[k + 1]);
        }
        lemma_readable(rest, i - 1);
        if i < records.len() {
            assert(rest[i - 1] == records[i]);
        }
    }
}

/// The list of the addresses that the records hold, in their order. The
/// first record that could not be read fails the whole answer, for the
/// moment, with its cause.
pub fn host_answer(records: Vec<Result<IpAddr, String>>) -> (r: Result<IpList, Error>)
    ensures
        readable(records@) == records@.len() ==> r is Ok && r->Ok_0@ == addresses(records@),
        readable(records@) < records@.len() ==> r == Err::<IpList, Error>(
            Error::TemporaryError(records@[readable(records@) as int]->Err_0),
        ),
{
    let ghost all = records@;
    let mut ips: Vec<IpAddr> = Vec::new();
    for record in it: records
        invariant
            it.seq() == all,
            all == records@,
            ips@.len() == it.index(),
            forall|k: int| 0 <= k < it.index() ==> #[trigger] all[k] == Ok::<IpAddr, String>(ips@[k]),
    {
        match record {
            Ok(ip) => {
                ips.push(ip);
            },
            Err(cause) => {
                proof {
                    lemma_readable(all, it.index() as int);
                }
                return Err(Error::TemporaryError(cause));
            },
        }
    }
    proof {
        lemma_readable(all, all.len() as int);
        assert(ips@ =~= addresses(all));
    }
    Ok(IpList::from(ips))
}

/// The text of the question for the host of `name`.
pub fn question(name: &Name) -> (r: String)
    ensures
        r@ == question_text(*name),
{
    proof {
        reveal_strlit(".");
        assert("."@ =~= seq!['.']);
    }
    name.host().to_owned().concat(".")
}

/// The answer to a name that the client cannot be asked for.
pub fn bad_name(name: &Name) -> (r: Error)
    ensures
        r matches Error::InvalidName(text, why) && text@ == name_text(name@.host, name@.port)
            && why@ == "domain::resolv::DNameBuf::from_str failed"@,
{
    Error::InvalidName(name.to_string(), "domain::resolv::DNameBuf::from_str failed")
}

/// One poll of the pending answer of a host resolver, given what the poll
/// of its query brought.
///
/// While the query is pending, so is the answer. An answer that was read
/// gives the list of its addresses, or fails for the moment where a record
/// cannot be read. A question that the client refuses makes the name
/// invalid; every other failure is one of the moment.
pub fn host_poll(name: &Name, event: QueryEvent) -> (r: Poll<IpList, Error>)
    ensures
        match event {
            QueryEvent::NotReady => r == Ok::<Async<IpList>, Error>(Async::NotReady),
            QueryEvent::Answer(records) => {
                &&& readable(records@) == records@.len() ==> (r matches Ok(Async::Ready(list))
                    && list@ == addresses(records@))
                &&& readable(records@) < records@.len() ==> r == Err::<Async<IpList>, Error>(
                    Error::TemporaryError(records@[readable(records@) as int]->Err_0),
                )
            },
            QueryEvent::Unreadable(cause) => r == Err::<Async<IpList>, Error>(
                Error::TemporaryError(cause),
            ),
            QueryEvent::BadQuestion => r matches Err(Error::InvalidName(text, why)) && text@
                == name_text(name@.host, name@.port) && why@ == "resolv::error::Error::Question"@,
            QueryEvent::Failed(cause) => r == Err::<Async<IpList>, Error>(
                Error::TemporaryError(cause),
            ),
        },
{
    match event {
        QueryEvent::NotReady => Ok(Async::NotReady),
        QueryEvent::Answer(records) => match host_answer(records) {
            Ok(list) => Ok(Async::Ready(list)),
            Err(e) => Err(e),
        },
        QueryEvent::Unreadable(cause) => Err(Error::TemporaryError(cause)),
        QueryEvent::BadQuestion => Err(
            Error::InvalidName(name.to_string(), "resolv::error::Error::Question"),
        ),
        QueryEvent::Failed(cause) => Err(Error::TemporaryError(cause)),
    }
}

} // verus!
