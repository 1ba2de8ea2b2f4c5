//! What the resolution of a host answers: a list of IP addresses.
use vstd::prelude::*;
use std::sync::Arc;
use crate::addr::{Address, Entries};
use crate::net::{parse_ip, AddrParseError, IpAddr, SocketAddr};
use crate::random;
use crate::text::share;

verus! {

/// The addresses of a host. A clone shares the list with the value it came
/// from.
#[derive(Debug, Eq)]
pub struct IpList {
    ips: Arc<Vec<IpAddr>>,
}

impl View for IpList {
    type V = Seq<IpAddr>;

    closed spec fn view(&self) -> Seq<IpAddr> {
        (*self.ips)@
    }
}

/// A walk over the addresses of a list.
#[derive(Debug)]
pub struct IpIterator<'a> {
    ips: &'a [IpAddr],
    next: usize,
}

impl<'a> View for IpIterator<'a> {
    type V = Seq<IpAddr>;

    /// The addresses still to come.
    closed spec fn view(&self) -> Seq<IpAddr> {
        if self.next <= self.ips@.len() {
            self.ips@.skip(self.next as int)
        } else {
            Seq::empty()
        }
    }
}

impl<'a> IpIterator<'a> {
    /// The next address, if one is left.
    pub fn next(&mut self) -> (r: Option<&'a IpAddr>)
        ensures
            old(self)@.len() == 0 ==> r is None && final(self)@ == old(self)@,
            old(self)@.len() > 0 ==> r is Some && *r->0 == old(self)@[0] && final(self)@ == old(
                self,
            )@.drop_first(),
    {
        if self.next < self.ips.len() {
            let ip = &self.ips[self.next];
            proof {
                assert(self.ips@.skip(self.next as int).drop_first() =~= self.ips@.skip(
                    self.next + 1,
                ));
            }
            self.next = self.next + 1;
            Some(ip)
        } else {
            None
        }
    }
}

/// The port `port` on each host of `ips`, each with weight 0.
pub open spec fn with_port_of(ips: Seq<IpAddr>, port: u16) -> Entries {
    Seq::new(ips.len(), |i: int| (0u64, SocketAddr { ip: ips[i], port }))
}

/// What a list of texts says where each is the address of a host; nothing
/// where one of them is not.
pub open spec fn parse_all_ips(items: Seq<&str>) -> Option<Seq<IpAddr>> {
    if forall|i: int| 0 <= i < items.len() ==> parse_ip((#[trigger] items[i])@) is Some {
        Some(Seq::new(items.len(), |i: int| parse_ip(items[i]@)->0))
    } else {
        None
    }
}

impl IpList {
    /// How many addresses the list holds.
    pub fn len(&self) -> (r: usize)
        ensures
            r == self@.len(),
    {
        self.ips.len()
    }

    /// Picks one address at random, each with the same chance. Nothing
    /// where the list is empty.
    pub fn pick_one(&self) -> (r: Option<IpAddr>)
        ensures
            self@.len() == 0 ==> r is None,
            self@.len() > 0 ==> r is Some && self@.contains(r->0),
            self@.len() == 1 ==> r == Some(self@[0]),
    {
        if self.ips.len() == 0 {
            return None;
        }
        random::one_of(self.ips.as_slice())
    }

    /// The walk over the addresses, in their order.
    pub fn iter(&self) -> (r: IpIterator<'_>)
        ensures
            r@ == self@,
    {
        let r = IpIterator { ips: self.ips.as_slice(), next: 0 };
        proof {
            assert(r@ =~= self@);
        }
        r
    }

    /// The address that holds, in one level, the port `port` on each host
    /// of the list, in the order of the list and with weight 0.
    pub fn with_port(&self, port: u16) -> (r: Address)
        ensures
            r@ == seq![with_port_of(self@, port)],
    {
        let mut addrs: Vec<SocketAddr> = Vec::new();
        let mut i: usize = 0;
        while i < self.ips.len()
            invariant
                i <= self.ips.len(),
                addrs@.len() == i,
                forall|k: int|
                    0 <= k < i ==> addrs@[k] == (SocketAddr { ip: self@[k], port }),
            decreases self.ips.len() - i,
        {
            addrs.push(SocketAddr::new(self.ips[i], port));
            i += 1;
        }
        let r = Address::from_addresses(addrs.as_slice());
        proof {
            assert(crate::addr::unweighted(addrs@) =~= with_port_of(self@, port));
        }
        r
    }

    /// Reads each of `items` as the address of a host. Fails where one of
    /// them is no address.
    pub fn parse_list(items: &[&str]) -> (r: Result<IpList, AddrParseError>)
        ensures
            match parse_all_ips(items@) {
                Some(ips) => r is Ok && r->Ok_0@ == ips,
                None => r is Err,
            },
    {
        let mut ips: Vec<IpAddr> = Vec::new();
        let mut i: usize = 0;
        while i < items.len()
            invariant
                i <= items.len(),
                ips@.len() == i,
                forall|k: int| 0 <= k < i ==> parse_ip((#[trigger] items@[k])@) == Some(ips@[k]),
            decreases items.len() - i,
        {
            match IpAddr::parse(items[i]) {
                Ok(ip) => {
                    ips.push(ip);
                },
                Err(e) => {
                    return Err(e);
                },
            }
            i += 1;
        }
        proof {
            assert(ips@ =~= parse_all_ips(items@)->0);
        }
        Ok(IpList { ips: Arc::new(ips) })
    }
}

impl PartialEq for IpList {
    /// Whether the two lists hold the same addresses in the same order.
    fn eq(&self, other: &IpList) -> (r: bool)
        ensures
            r == (self@ == other@),
    {
        if self.ips.len() != other.ips.len() {
            return false;
        }
        let mut i: usize = 0;
        while i < self.ips.len()
            invariant
                i <= self.ips.len(),
                self.ips.len() == other.ips.len(),
                forall|k: int| 0 <= k < i ==> self@[k] == other@[k],
            decreases self.ips.len() - i,
        {
            if self.ips[i] != other.ips[i] {
                return false;
            }
            i += 1;
        }
        proof {
            assert(self@ =~= other@);
        }
        true
    }
}

impl vstd::std_specs::cmp::PartialEqSpecImpl for IpList {
    open spec fn obeys_eq_spec() -> bool {
        true
    }

    open spec fn eq_spec(&self, other: &IpList) -> bool {
        self@ == other@
    }
}

impl Clone for IpList {
    /// One more owner of the same list.
    fn clone(&self) -> (r: IpList)
        ensures
            r@ == self@,
    {
        IpList { ips: share(&self.ips) }
    }
}

impl From<Vec<IpAddr>> for IpList {
    /// The list that holds `ips`, in their order.
    fn from(ips: Vec<IpAddr>) -> (r: IpList)
        ensures
            r@ == ips@,
    {
        IpList { ips: Arc::new(ips) }
    }
}

impl vstd::std_specs::convert::FromSpecImpl<Vec<IpAddr>> for IpList {
    /// No spec function builds the value: what `from` returns is said by
    /// its own `ensures`.
    open spec fn obeys_from_spec() -> bool {
        false
    }

    open spec fn from_spec(ips: Vec<IpAddr>) -> IpList {
        arbitrary()
    }
}

} // verus!
