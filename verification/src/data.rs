//! The renderer's side data: the registry of pending reference links.

use vstd::prelude::*;

verus! {

/// A reference link waiting to be written out.
#[derive(Clone, Debug)]
pub struct Link {
    /// The reference index shown as `[index]` next to the link text.
    pub index: u64,
    /// The link destination, exactly as it appeared in the document.
    pub target: String,
    /// The link title, possibly empty.
    pub title: String,
}

/// Mathematical model of a pending link.
pub struct LinkV {
    pub index: u64,
    pub target: Seq<char>,
    pub title: Seq<char>,
}

impl View for Link {
    type V = LinkV;

    open spec fn view(&self) -> LinkV {
        LinkV { index: self.index, target: self.target@, title: self.title@ }
    }
}

/// Data threaded through the renderer beside the state: the pending
/// reference links and the next free reference index.
#[derive(Debug)]
pub struct StateData {
    /// Links waiting to be flushed, oldest first.
    pub pending_links: Vec<Link>,
    /// The index the next link will receive.  Starts at one and only ever
    /// grows; indices are never reused.
    pub next_link_index: u64,
}

/// Mathematical model of the link registry.
pub struct StateDataV {
    pub links: Seq<LinkV>,
    pub next_index: u64,
}

impl View for StateData {
    type V = StateDataV;

    open spec fn view(&self) -> StateDataV {
        StateDataV { links: self.pending_links@.map_values(|l: Link| l@), next_index: self.next_link_index }
    }
}

/// Well-formedness of the link registry: the next index is at least one,
/// and the pending links carry exactly the run of indices directly below
/// it, in order.  In particular indices are strictly increasing and, over
/// the lifetime of a render, contiguous starting at one.
pub open spec fn data_wf(d: StateDataV) -> bool {
    &&& 1 <= d.next_index
    &&& forall|i: int|
        0 <= i < d.links.len() ==> #[trigger] d.links[i].index as int == d.next_index - d.links.len()
            + i
}

impl StateData {
    /// A fresh registry: no pending links, next index one.
    pub fn new() -> (r: StateData)
        ensures
            r@.links == Seq::<LinkV>::empty(),
            r@.next_index == 1,
            data_wf(r@),
    {
        let r = StateData { pending_links: Vec::new(), next_link_index: 1 };
        proof {
            assert(r@.links =~= Seq::<LinkV>::empty());
        }
        r
    }

    /// Register a deferred reference link and return its index.
    ///
    /// Indices are handed out in encounter order: this link receives the
    /// current next index, and the next index moves up by one.
    pub fn add_link(self, target: String, title: String) -> (r: (StateData, u64))
        requires
            self.next_link_index < u64::MAX,
        ensures
            r.1 == self.next_link_index,
            r.0@.next_index == self.next_link_index + 1,
            r.0@.links == self@.links.push(LinkV { index: r.1, target: target@, title: title@ }),
            data_wf(self@) ==> data_wf(r.0@),
    {
        let index = self.next_link_index;
        let mut links = self.pending_links;
        links.push(Link { index, target, title });
        let r = StateData { pending_links: links, next_link_index: index + 1 };
        proof {
            assert(r@.links =~= self@.links.push(
                LinkV { index, target: target@, title: title@ },
            ));
        }
        (r, index)
    }

    /// Take all pending links out of the registry, leaving it empty but
    /// keeping the next index, so later links continue the numbering.
    pub fn take_links(self) -> (r: (StateData, Vec<Link>))
        ensures
            r.1@.map_values(|l: Link| l@) == self@.links,
            r.0@.links == Seq::<LinkV>::empty(),
            r.0@.next_index == self@.next_index,
            1 <= self@.next_index ==> data_wf(r.0@),
    {
        let links = self.pending_links;
        let r = StateData { pending_links: Vec::new(), next_link_index: self.next_link_index };
        proof {
            assert(r@.links =~= Seq::<LinkV>::empty());
        }
        (r, links)
    }
}

} // verus!
