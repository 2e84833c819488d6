//! The set of script results the bridge is currently showing.

use vstd::prelude::*;
use crate::table::Table;
use crate::ids::{resource_id, resource_id_of};

verus! {

/// One script result.
#[derive(Debug, Clone)]
pub struct Resource {
    pub id: String,
    pub title: String,
    /// `None` until the server has rendered it at least once.
    pub html: Option<String>,
    pub running: bool,
}

/// The model of a script result.
pub struct ResourceModel {
    pub id: Seq<char>,
    pub title: Seq<char>,
    pub html: Option<Seq<char>>,
    pub running: bool,
}

impl View for Resource {
    type V = ResourceModel;

    open spec fn view(&self) -> ResourceModel {
        ResourceModel {
            id: self.id@,
            title: self.title@,
            html: match self.html {
                Some(h) => Some(h@),
                None => None,
            },
            running: self.running,
        }
    }
}

impl Resource {
    /// A copy of the resource.
    pub fn copy(&self) -> (r: Resource)
        ensures
            r@ == self@,
    {
        Resource {
            id: self.id.clone(),
            title: self.title.clone(),
            html: match &self.html {
                Some(h) => Some(h.clone()),
                None => None,
            },
            running: self.running,
        }
    }
}

#[verifier::external_type_specification]
#[verifier::external_body]
#[verifier::reject_recursive_types(T)]
pub struct ExSender<T>(std::sync::mpsc::Sender<T>);

#[verifier::external_type_specification]
#[verifier::external_body]
#[verifier::reject_recursive_types(T)]
pub struct ExReceiver<T>(std::sync::mpsc::Receiver<T>);

/// A new channel from `std::sync::mpsc::channel`, as a page offered no
/// wake-up yet and the listener that receives what is sent to it. Stated:
/// the two carry the same channel mark, as `channel` documents that what the
/// sending half sends, the receiving half receives. Which mark it is, is
/// left open.
#[verifier::external_body]
fn open_channel() -> (r: (Subscriber, Listener))
    ensures
        r.0.channel@ == r.1.channel@,
        r.0.offered@ == 0,
{
    let (tx, rx) = std::sync::mpsc::channel();
    (
        Subscriber { tx, offered: Ghost(0), channel: Ghost(arbitrary()) },
        Listener { rx, channel: Ghost(arbitrary()) },
    )
}

/// Sends a wake-up with `Sender::send`; false once the receiver has been
/// dropped, which is up to whoever holds it.
#[verifier::external_body]
fn wake(tx: &std::sync::mpsc::Sender<()>) -> (delivered: bool)
{
    tx.send(()).is_ok()
}

/// What the registry knows: each resource by id, and the id of each URI that
/// was shown.
pub struct RegistryModel {
    pub by_id: Map<Seq<char>, ResourceModel>,
    pub id_by_uri: Map<Seq<char>, Seq<char>>,
}

/// The registry after showing `uri` under `title`.
pub open spec fn registered(m: RegistryModel, title: Seq<char>, uri: Seq<char>) -> RegistryModel {
    let id = resource_id_of(uri);
    RegistryModel {
        by_id: if m.by_id.dom().contains(id) {
            m.by_id
        } else {
            m.by_id.insert(id, ResourceModel { id, title, html: None, running: true })
        },
        id_by_uri: m.id_by_uri.insert(uri, id),
    }
}

/// The registry after the server rendered `uri` as `html`.
pub open spec fn rendered(m: RegistryModel, uri: Seq<char>, html: Seq<char>) -> RegistryModel {
    match m.id_by_uri.get(uri) {
        Some(id) if m.by_id.dom().contains(id) => RegistryModel {
            by_id: m.by_id.insert(id, ResourceModel { html: Some(html), running: false, ..m.by_id[id] }),
            id_by_uri: m.id_by_uri,
        },
        _ => m,
    }
}

/// The registry after the server started recomputing `uri`.
pub open spec fn started(m: RegistryModel, uri: Seq<char>) -> RegistryModel {
    match m.id_by_uri.get(uri) {
        Some(id) if m.by_id.dom().contains(id) => RegistryModel {
            by_id: m.by_id.insert(id, ResourceModel { running: true, ..m.by_id[id] }),
            id_by_uri: m.id_by_uri,
        },
        _ => m,
    }
}

/// The script results the bridge serves, with the browser tabs waiting on
/// each.
pub struct Registry {
    by_id: Table<Resource>,
    id_by_uri: Table<String>,
    subscribers: Table<Vec<Subscriber>>,
    /// Every wake-up offered so far, oldest first: the channel it was sent
    /// on, and whether it was delivered.
    log: Ghost<Seq<(int, bool)>>,
}

/// A browser page waiting on a result: the sending half of its channel, and
/// how many wake-ups it has been offered since it subscribed.
pub struct Subscriber {
    tx: std::sync::mpsc::Sender<()>,
    offered: Ghost<nat>,
    /// The channel the sending half belongs to.
    channel: Ghost<int>,
}

/// The receiving half of a page's channel, marked with the channel it
/// belongs to.
pub struct Listener {
    rx: std::sync::mpsc::Receiver<()>,
    channel: Ghost<int>,
}

impl Listener {
    /// The channel the listener receives on.
    pub closed spec fn channel(&self) -> int {
        self.channel@
    }

    /// The receiving half itself, to wait on.
    pub fn receiver(&self) -> &std::sync::mpsc::Receiver<()> {
        &self.rx
    }
}

/// Offers the page one wake-up, and records it in `log`; whether it was
/// delivered (the page still listens) comes back.
fn offer(sub: &mut Subscriber, log: &mut Ghost<Seq<(int, bool)>>) -> (delivered: bool)
    ensures
        final(sub).offered@ == old(sub).offered@ + 1,
        final(sub).channel@ == old(sub).channel@,
        final(log)@ == old(log)@.push((old(sub).channel@, delivered)),
{
    let delivered = wake(&sub.tx);
    sub.offered = Ghost((sub.offered@ + 1) as nat);
    *log = Ghost(log@.push((sub.channel@, delivered)));
    delivered
}

/// Whether each wake-up in a stretch of the log was delivered.
pub open spec fn outcomes(entries: Seq<(int, bool)>) -> Seq<bool> {
    entries.map_values(|e: (int, bool)| e.1)
}

/// The pages still waiting, each as its channel and the wake-ups it was
/// offered, after each page in `pages` was offered one more, where
/// `delivered` says which took it: a page that is gone is dropped, the
/// others keep their order.
pub open spec fn woken(pages: Seq<(int, nat)>, delivered: Seq<bool>) -> Seq<(int, nat)>
    decreases pages.len(),
{
    if pages.len() == 0 {
        Seq::empty()
    } else {
        let rest = woken(pages.drop_last(), delivered.drop_last());
        if delivered.last() {
            rest.push((pages.last().0, pages.last().1 + 1))
        } else {
            rest
        }
    }
}

/// Every page waiting on `id` in `before` was offered one wake-up, in
/// order: the log grew by one entry per page, on that page's channel, and
/// `after` is what waits once the pages whose wake-up was not delivered
/// left. Nothing else changed.
pub open spec fn offered_to_all(
    before: Map<Seq<char>, Seq<(int, nat)>>,
    after: Map<Seq<char>, Seq<(int, nat)>>,
    log_before: Seq<(int, bool)>,
    log_after: Seq<(int, bool)>,
    id: Seq<char>,
) -> bool {
    if before.dom().contains(id) {
        let pages = before[id];
        let fresh = log_after.skip(log_before.len() as int);
        &&& log_after.len() == log_before.len() + pages.len()
        &&& log_after.take(log_before.len() as int) == log_before
        &&& forall|i: int| 0 <= i < pages.len() ==> (#[trigger] fresh[i]).0 == pages[i].0
        &&& after == before.insert(id, woken(pages, outcomes(fresh)))
    } else {
        after == before && log_after == log_before
    }
}

/// What waits after the render or progress of `uri`: when it was shown,
/// every page waiting on its id is offered a wake-up.
pub open spec fn after_change(
    before: Map<Seq<char>, Seq<(int, nat)>>,
    after: Map<Seq<char>, Seq<(int, nat)>>,
    log_before: Seq<(int, bool)>,
    log_after: Seq<(int, bool)>,
    m: RegistryModel,
    uri: Seq<char>,
) -> bool {
    match m.id_by_uri.get(uri) {
        Some(id) => offered_to_all(before, after, log_before, log_after, id),
        None => after == before && log_after == log_before,
    }
}

/// What waits once a new page listening on `channel` subscribes to `id`:
/// it joins the end of the pages waiting on it, offered no wake-up yet.
pub open spec fn subscribed(
    w: Map<Seq<char>, Seq<(int, nat)>>,
    id: Seq<char>,
    channel: int,
) -> Map<Seq<char>, Seq<(int, nat)>> {
    w.insert(
        id,
        (if w.dom().contains(id) {
            w[id]
        } else {
            Seq::<(int, nat)>::empty()
        }).push((channel, 0)),
    )
}

/// The wake-up counts of a list of pages.
spec fn offer_counts(v: Seq<Subscriber>) -> Seq<(int, nat)> {
    v.map_values(|s: Subscriber| (s.channel@, s.offered@))
}

impl View for Registry {
    type V = RegistryModel;

    closed spec fn view(&self) -> RegistryModel {
        RegistryModel {
            by_id: self.by_id.map().map_values(|r: Resource| r@),
            id_by_uri: self.id_by_uri.map().map_values(|s: String| s@),
        }
    }
}

/// `a` comes no later than `b` in the order `String` compares in: by
/// character, a prefix first.
pub open spec fn text_le(a: Seq<char>, b: Seq<char>) -> bool
    decreases a.len(),
{
    if a.len() == 0 {
        true
    } else if b.len() == 0 {
        false
    } else if (a[0] as u32) < (b[0] as u32) {
        true
    } else if (a[0] as u32) == (b[0] as u32) {
        text_le(a.skip(1), b.skip(1))
    } else {
        false
    }
}

pub proof fn lemma_text_le_total(a: Seq<char>, b: Seq<char>)
    ensures
        text_le(a, b) || text_le(b, a),
    decreases a.len(),
{
    if a.len() > 0 && b.len() > 0 && (a[0] as u32) == (b[0] as u32) {
        lemma_text_le_total(a.skip(1), b.skip(1));
    }
}

pub proof fn lemma_text_le_trans(a: Seq<char>, b: Seq<char>, c: Seq<char>)
    requires
        text_le(a, b),
        text_le(b, c),
    ensures
        text_le(a, c),
    decreases a.len(),
{
    if a.len() > 0 && b.len() > 0 && c.len() > 0 && (a[0] as u32) == (b[0] as u32) && (b[0] as u32)
        == (c[0] as u32) {
        lemma_text_le_trans(a.skip(1), b.skip(1), c.skip(1));
    }
}

/// Whether `a` comes no later than `b`.
pub fn text_le_exec(a: &[char], b: &[char]) -> (r: bool)
    ensures
        r == text_le(a@, b@),
{
    let mut i: usize = 0;
    assert(a@.skip(0) =~= a@ && b@.skip(0) =~= b@);
    loop
        invariant
            0 <= i <= a@.len(),
            i <= b@.len(),
            text_le(a@, b@) == text_le(a@.skip(i as int), b@.skip(i as int)),
        decreases a@.len() - i,
    {
        if i == a.len() {
            return true;
        }
        if i == b.len() {
            return false;
        }
        let x = a[i] as u32;
        let y = b[i] as u32;
        if x < y {
            return true;
        }
        if x > y {
            return false;
        }
        assert(a@.skip(i as int).skip(1) =~= a@.skip(i + 1));
        assert(b@.skip(i as int).skip(1) =~= b@.skip(i + 1));
        i += 1;
    }
}

/// Resources in title order.
pub open spec fn sorted_by_title(s: Seq<ResourceModel>) -> bool {
    forall|i: int, j: int| 0 <= i < j < s.len() ==> text_le(#[trigger] s[i].title, #[trigger] s[j].title)
}

/// The models of a list of resources.
pub open spec fn resources_model(v: Seq<Resource>) -> Seq<ResourceModel> {
    v.map_values(|r: Resource| r@)
}

impl Registry {
    /// The state is consistent: no id or URI is held twice.
    pub closed spec fn wf(&self) -> bool {
        &&& self.by_id.wf()
        &&& self.id_by_uri.wf()
        &&& self.subscribers.wf()
        &&& forall|k: Seq<char>| #[trigger] self.by_id.map().dom().contains(k) ==> self.by_id.map()[k].id@ == k
        &&& forall|u: Seq<char>| #[trigger] self.id_by_uri.map().dom().contains(u) ==> self.id_by_uri.map()[u]@
            == resource_id_of(u) && self.by_id.map().dom().contains(self.id_by_uri.map()[u]@)
    }

    /// Every URI shown is held under the id it hashes to, and a resource with
    /// that id is held.
    pub proof fn lemma_shown_uris(&self)
        requires
            self.wf(),
        ensures
            forall|u: Seq<char>| #[trigger] self@.id_by_uri.dom().contains(u) ==> self@.id_by_uri[u]
                == resource_id_of(u) && self@.by_id.dom().contains(resource_id_of(u)),
    {
    }

    /// The pages waiting on each id, oldest subscription first, each as the
    /// channel it listens on and the number of wake-ups it has been offered.
    pub closed spec fn waiting(&self) -> Map<Seq<char>, Seq<(int, nat)>> {
        self.subscribers.map().map_values(|v: Vec<Subscriber>| offer_counts(v@))
    }

    /// Every wake-up offered so far, oldest first: the channel it was sent
    /// on, and whether it was delivered.
    pub closed spec fn offers(&self) -> Seq<(int, bool)> {
        self.log@
    }

    /// The resources, in the order they were registered.
    pub closed spec fn resources(&self) -> Seq<ResourceModel> {
        self.by_id.seq().map_values(|e: (String, Resource)| e.1@)
    }

    /// The resources are exactly the registry's: each under its own id, none
    /// twice, and one for every id it holds.
    pub proof fn lemma_resources(&self)
        requires
            self.wf(),
        ensures
            forall|i: int| 0 <= i < self.resources().len() ==> self@.by_id.dom().contains(
                #[trigger] self.resources()[i].id,
            ) && self@.by_id[self.resources()[i].id] == self.resources()[i],
            forall|i: int, j: int| 0 <= i < j < self.resources().len() ==> #[trigger] self.resources()[i].id
                != #[trigger] self.resources()[j].id,
            forall|id: Seq<char>| #[trigger] self@.by_id.dom().contains(id) ==> exists|i: int|
                0 <= i < self.resources().len() && #[trigger] self.resources()[i].id == id,
    {
        self.by_id.lemma_seq_map();
        let s = self.by_id.seq();
        let r = self.resources();
        assert forall|i: int| 0 <= i < r.len() implies self@.by_id.dom().contains(#[trigger] r[i].id)
            && self@.by_id[r[i].id] == r[i] by {
            assert(r[i] == s[i].1@);
            assert(self.by_id.map().dom().contains(s[i].0@));
            assert(s[i].1.id@ == s[i].0@);
        }
        assert forall|i: int, j: int| 0 <= i < j < r.len() implies #[trigger] r[i].id != #[trigger] r[j].id by {
            assert(r[i] == s[i].1@ && r[j] == s[j].1@);
            assert(self.by_id.map().dom().contains(s[i].0@) && self.by_id.map().dom().contains(s[j].0@));
            assert(s[i].0@ != s[j].0@);
        }
        assert forall|id: Seq<char>| #[trigger] self@.by_id.dom().contains(id) implies exists|i: int|
            0 <= i < r.len() && #[trigger] r[i].id == id by {
            assert(self.by_id.map().dom().contains(id));
            let i = choose|i: int| 0 <= i < s.len() && (#[trigger] s[i]).0@ == id;
            assert(r.len() == s.len());
            assert(r[i] == s[i].1@);
            assert(self.by_id.map().dom().contains(s[i].0@));
            assert(s[i].1.id@ == id);
            assert(r[i].id == id);
        }
    }

    /// A registry that knows of no resource.
    pub fn new() -> (r: Registry)
        ensures
            r.wf(),
            r.waiting() == Map::<Seq<char>, Seq<(int, nat)>>::empty(),
            r.offers() == Seq::<(int, bool)>::empty(),
            r@.by_id == Map::<Seq<char>, ResourceModel>::empty(),
            r@.id_by_uri == Map::<Seq<char>, Seq<char>>::empty(),
            r.resources().len() == 0,
    {
        let r = Registry {
            by_id: Table::new(),
            id_by_uri: Table::new(),
            subscribers: Table::new(),
            log: Ghost(Seq::empty()),
        };
        assert(r.waiting() =~= Map::<Seq<char>, Seq<(int, nat)>>::empty());
        assert(r@.by_id =~= Map::<Seq<char>, ResourceModel>::empty());
        assert(r@.id_by_uri =~= Map::<Seq<char>, Seq<char>>::empty());
        r
    }

    /// Records a script result to show, under the id its URI hashes to, and
    /// returns the id. A result registered before keeps its title and render.
    pub fn register(&mut self, title: &str, uri: &str) -> (id: String)
        requires
            old(self).wf(),
        ensures
            final(self).wf(),
            id@ == resource_id_of(uri@),
            final(self)@ == registered(old(self)@, title@, uri@),
            final(self).waiting() == old(self).waiting(),
            final(self).offers() == old(self).offers(),
    {
        let id = resource_id(uri);
        let ghost before = self@;
        self.id_by_uri.insert(uri.to_owned(), id.clone());
        if !self.by_id.contains_key(id.as_str()) {
            let r = Resource { id: id.clone(), title: title.to_owned(), html: None, running: true };
            let ghost rm = r@;
            self.by_id.insert(id.clone(), r);
            assert(self@.by_id =~= before.by_id.insert(id@, rm));
        } else {
            assert(self@.by_id =~= before.by_id);
        }
        assert(self@.id_by_uri =~= before.id_by_uri.insert(uri@, id@));
        id
    }

    /// Whether a URI has been shown.
    pub fn is_known(&self, uri: &str) -> (b: bool)
        requires
            self.wf(),
        ensures
            b == self@.id_by_uri.dom().contains(uri@),
    {
        self.id_by_uri.contains_key(uri)
    }

    /// The server rendered the resource at `uri`: remember the HTML, clear the
    /// running flag and wake the pages showing it. Ignored for a URI that was
    /// never shown.
    pub fn update(&mut self, uri: &str, html: &str)
        requires
            old(self).wf(),
        ensures
            final(self).wf(),
            final(self)@ == rendered(old(self)@, uri@, html@),
            old(self)@.id_by_uri.dom().contains(uri@) ==> ({
                let id = resource_id_of(uri@);
                &&& final(self)@.by_id[id] == ResourceModel {
                    html: Some(html@),
                    running: false,
                    ..old(self)@.by_id[id]
                }
                &&& offered_to_all(
                    old(self).waiting(),
                    final(self).waiting(),
                    old(self).offers(),
                    final(self).offers(),
                    id,
                )
            }),
            after_change(
                old(self).waiting(),
                final(self).waiting(),
                old(self).offers(),
                final(self).offers(),
                old(self)@,
                uri@,
            ),
    {
        let ghost before = self@;
        let id = match self.id_by_uri.get(uri) {
            Some(id) => id.clone(),
            None => {
                return;
            },
        };
        match self.by_id.get(id.as_str()) {
            Some(resource) => {
                let mut r = resource.copy();
                r.html = Some(html.to_owned());
                r.running = false;
                let ghost rm = r@;
                self.by_id.insert(id.clone(), r);
                assert(self@.by_id =~= before.by_id.insert(id@, rm));
            },
            None => {},
        }
        self.notify(id.as_str());
        assert(self@.id_by_uri =~= before.id_by_uri);
    }

    /// The server started recomputing the resource at `uri`: set the running
    /// flag and wake the pages showing it. Ignored for a URI that was never
    /// shown.
    pub fn set_running(&mut self, uri: &str)
        requires
            old(self).wf(),
        ensures
            final(self).wf(),
            final(self)@ == started(old(self)@, uri@),
            old(self)@.id_by_uri.dom().contains(uri@) ==> ({
                let id = resource_id_of(uri@);
                &&& final(self)@.by_id[id] == ResourceModel { running: true, ..old(self)@.by_id[id] }
                &&& offered_to_all(
                    old(self).waiting(),
                    final(self).waiting(),
                    old(self).offers(),
                    final(self).offers(),
                    id,
                )
            }),
            after_change(
                old(self).waiting(),
                final(self).waiting(),
                old(self).offers(),
                final(self).offers(),
                old(self)@,
                uri@,
            ),
    {
        let ghost before = self@;
        let id = match self.id_by_uri.get(uri) {
            Some(id) => id.clone(),
            None => {
                return;
            },
        };
        match self.by_id.get(id.as_str()) {
            Some(resource) => {
                let mut r = resource.copy();
                r.running = true;
                let ghost rm = r@;
                self.by_id.insert(id.clone(), r);
                assert(self@.by_id =~= before.by_id.insert(id@, rm));
            },
            None => {},
        }
        self.notify(id.as_str());
        assert(self@.id_by_uri =~= before.id_by_uri);
    }

    /// The resource with the given id.
    pub fn get(&self, id: &str) -> (r: Option<Resource>)
        requires
            self.wf(),
        ensures
            match r {
                Some(res) => self@.by_id.dom().contains(id@) && res@ == self@.by_id[id@],
                None => !self@.by_id.dom().contains(id@),
            },
    {
        match self.by_id.get(id) {
            Some(r) => Some(r.copy()),
            None => None,
        }
    }

    /// Every resource, in title order; resources with equal titles keep the
    /// order they were registered in.
    pub fn list(&self) -> (r: Vec<Resource>)
        requires
            self.wf(),
        ensures
            resources_model(r@).to_multiset() == self.resources().to_multiset(),
            sorted_by_title(resources_model(r@)),
            forall|i: int| 0 <= i < r@.len() ==> self@.by_id.dom().contains(#[trigger] r@[i]@.id)
                && self@.by_id[r@[i]@.id] == r@[i]@,
            forall|i: int, j: int| 0 <= i < j < r@.len() ==> #[trigger] r@[i]@.id != #[trigger] r@[j]@.id,
            forall|id: Seq<char>| #[trigger] self@.by_id.dom().contains(id) ==> exists|i: int|
                0 <= i < r@.len() && #[trigger] r@[i]@.id == id,
    {
        let entries = self.by_id.entries();
        let ghost all = self.resources();
        let mut out: Vec<Resource> = Vec::new();
        let mut i: usize = 0;
        assert(resources_model(out@) =~= all.take(0));
        while i < entries.len()
            invariant
                0 <= i <= entries@.len(),
                all == entries@.map_values(|e: (String, Resource)| e.1@),
                resources_model(out@).to_multiset() == all.take(i as int).to_multiset(),
                sorted_by_title(resources_model(out@)),
            decreases entries@.len() - i,
        {
            let item = entries[i].1.copy();
            let p = insertion_point(&out, item.title.as_str());
            let ghost before = out@;
            proof {
                if p < before.len() {
                    lemma_text_le_total(before[p as int]@.title, item@.title);
                }
            }
            out.insert(p, item);
            proof {
                let bm = resources_model(before);
                let nm = resources_model(out@);
                assert forall|k: int| 0 <= k < bm.len() implies #[trigger] bm[k] == before[k]@ by {}
                assert(all[i as int] == item@);
                assert(nm =~= bm.insert(p as int, item@));
                vstd::seq_lib::to_multiset_insert(bm, p as int, item@);
                assert(all.take(i + 1) =~= all.take(i as int).push(item@));
                vstd::seq_lib::to_multiset_build(all.take(i as int), item@);
                assert forall|a: int, b: int| 0 <= a < b < nm.len() implies text_le(#[trigger] nm[a].title, #[trigger] nm[b].title) by {
                    if a < p && b < p {
                        assert(nm[a] == bm[a] && nm[b] == bm[b]);
                    } else if a < p && b == p {
                        assert(nm[a] == bm[a]);
                    } else if a < p && b > p {
                        assert(nm[a] == bm[a] && nm[b] == bm[b - 1]);
                        assert(text_le(bm[a].title, bm[p as int].title));
                        lemma_text_le_trans(bm[a].title, item@.title, bm[p as int].title);
                        if b - 1 > p {
                            lemma_text_le_trans(bm[a].title, bm[p as int].title, bm[b - 1].title);
                        }
                    } else if a == p {
                        assert(nm[b] == bm[b - 1]);
                        if b - 1 > p {
                            lemma_text_le_trans(item@.title, bm[p as int].title, bm[b - 1].title);
                        }
                    } else {
                        assert(nm[a] == bm[a - 1] && nm[b] == bm[b - 1]);
                    }
                }
            }
            i += 1;
        }
        assert(all.take(entries@.len() as int) =~= all);
        proof {
            let listed = resources_model(out@);
            law_the_listing_holds_each_result_once(self, listed);
            assert forall|i: int| 0 <= i < out@.len() implies #[trigger] out@[i]@ == listed[i] by {}
            assert forall|id: Seq<char>| #[trigger] self@.by_id.dom().contains(id) implies exists|i: int|
                0 <= i < out@.len() && #[trigger] out@[i]@.id == id by {
                let i = choose|i: int| 0 <= i < listed.len() && #[trigger] listed[i].id == id;
                assert(out@[i]@ == listed[i]);
            }
        }
        out
    }

    /// A receiver that is woken whenever the resource with the given id is
    /// rendered or starts running; `None` for an unknown id. The page joins
    /// the end of those waiting on the id, offered no wake-up yet.
    pub fn subscribe(&mut self, id: &str) -> (r: Option<Listener>)
        requires
            old(self).wf(),
        ensures
            final(self).wf(),
            final(self)@ == old(self)@,
            final(self).resources() == old(self).resources(),
            r is Some <==> old(self)@.by_id.dom().contains(id@),
            r matches Some(l) ==> final(self).waiting() == subscribed(old(self).waiting(), id@, l.channel()),
            r is None ==> final(self).waiting() == old(self).waiting(),
            final(self).offers() == old(self).offers(),
    {
        if !self.by_id.contains_key(id) {
            return None;
        }
        let ghost before = self.waiting();
        let (page, listener) = open_channel();
        let mut senders = match self.subscribers.remove(id) {
            Some(s) => s,
            None => Vec::new(),
        };
        let ghost prev = offer_counts(senders@);
        assert(prev == (if before.dom().contains(id@) { before[id@] } else { Seq::<(int, nat)>::empty() }));
        let ghost entry = (listener.channel@, 0nat);
        senders.push(page);
        assert(offer_counts(senders@) =~= prev.push(entry));
        self.subscribers.insert(id.to_owned(), senders);
        assert(self.waiting() =~= before.insert(id@, prev.push(entry)));
        Some(listener)
    }

    /// Wakes the pages showing `id`. A closed browser tab drops its receiver,
    /// which is how it unsubscribes: senders whose receiver is gone are
    /// dropped.
    fn notify(&mut self, id: &str)
        requires
            old(self).wf(),
        ensures
            final(self).wf(),
            final(self)@ == old(self)@,
            final(self).resources() == old(self).resources(),
            offered_to_all(old(self).waiting(), final(self).waiting(), old(self).offers(), final(self).offers(), id@),
    {
        let ghost before = self.waiting();
        let ghost log0 = self.log@;
        let senders = match self.subscribers.remove(id) {
            Some(s) => s,
            None => {
                assert(self.waiting() =~= before);
                return;
            },
        };
        let ghost all = senders@;
        let ghost counts = offer_counts(all);
        assert(counts == before[id@]);
        let ghost mut entries: Seq<(int, bool)> = Seq::empty();
        let ghost mut i: int = 0;
        let mut log: Ghost<Seq<(int, bool)>> = Ghost(log0);
        let mut kept: Vec<Subscriber> = Vec::new();
        let mut senders = senders;
        assert(all.skip(0) =~= all);
        assert(counts.take(0) =~= Seq::<(int, nat)>::empty());
        assert(log0 + entries =~= log0);
        while senders.len() > 0
            invariant
                0 <= i <= all.len(),
                senders@ == all.skip(i),
                counts == offer_counts(all),
                entries.len() == i,
                log@ == log0 + entries,
                forall|k: int| 0 <= k < i ==> (#[trigger] entries[k]).0 == counts[k].0,
                offer_counts(kept@) == woken(counts.take(i), outcomes(entries)),
            decreases senders@.len(),
        {
            let mut sub = senders.remove(0);
            assert(sub == all[i]);
            let ghost n = sub.offered@;
            let ghost ch = sub.channel@;
            let ghost k0 = kept@;
            let d = offer(&mut sub, &mut log);
            if d {
                kept.push(sub);
                assert(offer_counts(kept@) =~= offer_counts(k0).push((ch, (n + 1) as nat)));
            }
            proof {
                let c2 = counts.take(i + 1);
                let e2 = entries.push((ch, d));
                assert(c2.drop_last() =~= counts.take(i));
                assert(outcomes(e2).drop_last() =~= outcomes(entries));
                assert(outcomes(e2).last() == d);
                assert(c2.last() == (ch, n));
                assert(log0 + e2 =~= (log0 + entries).push((ch, d)));
                entries = e2;
                i = i + 1;
            }
            assert(senders@ =~= all.skip(i));
        }
        assert(counts.take(i) =~= counts);
        self.subscribers.insert(id.to_owned(), kept);
        self.log = log;
        proof {
            assert((log0 + entries).skip(log0.len() as int) =~= entries);
            assert((log0 + entries).take(log0.len() as int) =~= log0);
        }
        assert(self.waiting() =~= before.insert(id@, woken(before[id@], outcomes(entries))));
    }
}

/// The first place in `out` whose title sorts strictly after `title`, so
/// that equal titles keep their order.
fn insertion_point(out: &Vec<Resource>, title: &str) -> (p: usize)
    ensures
        p <= out@.len(),
        forall|k: int| 0 <= k < p ==> text_le((#[trigger] out@[k])@.title, title@),
        p < out@.len() ==> !text_le(out@[p as int]@.title, title@),
{
    let t = crate::text::chars_of(title);
    let mut p: usize = 0;
    while p < out.len()
        invariant
            0 <= p <= out@.len(),
            t@ == title@,
            forall|k: int| 0 <= k < p ==> text_le((#[trigger] out@[k])@.title, title@),
        decreases out@.len() - p,
    {
        let other = crate::text::chars_of(out[p].title.as_str());
        if !text_le_exec(other.as_slice(), t.as_slice()) {
            return p;
        }
        p += 1;
    }
    p
}

impl Default for Registry {
    fn default() -> (r: Registry)
        ensures
            r.wf(),
            r@.by_id == Map::<Seq<char>, ResourceModel>::empty(),
            r@.id_by_uri == Map::<Seq<char>, Seq<char>>::empty(),
    {
        Registry::new()
    }
}


/// Each render or progress offers every page waiting on the result one
/// wake-up: the pages that still listen stay, in their order, each offered
/// exactly one more, and only pages that are gone leave.
pub proof fn law_each_change_wakes_every_listening_page(counts: Seq<(int, nat)>, delivered: Seq<bool>)
    requires
        delivered.len() == counts.len(),
    ensures
        woken(counts, delivered).len() <= counts.len(),
        (forall|i: int| 0 <= i < delivered.len() ==> #[trigger] delivered[i]) ==> woken(counts, delivered)
            == counts.map_values(|c: (int, nat)| (c.0, (c.1 + 1) as nat)),
    decreases counts.len(),
{
    if counts.len() > 0 {
        law_each_change_wakes_every_listening_page(counts.drop_last(), delivered.drop_last());
        if forall|i: int| 0 <= i < delivered.len() ==> #[trigger] delivered[i] {
            assert forall|i: int| 0 <= i < delivered.drop_last().len() implies #[trigger] delivered.drop_last()[i] by {
                assert(delivered[i]);
            }
            assert(delivered[delivered.len() - 1]);
            assert(woken(counts, delivered) =~= counts.map_values(|c: (int, nat)| (c.0, (c.1 + 1) as nat)));
        }
    }
}

/// The listing holds every result the registry holds, each once and as the
/// registry holds it, and nothing else.
pub proof fn law_the_listing_holds_each_result_once(reg: &Registry, listed: Seq<ResourceModel>)
    requires
        reg.wf(),
        listed.to_multiset() == reg.resources().to_multiset(),
    ensures
        forall|i: int| 0 <= i < listed.len() ==> reg@.by_id.dom().contains(#[trigger] listed[i].id)
            && reg@.by_id[listed[i].id] == listed[i],
        forall|i: int, j: int| 0 <= i < j < listed.len() ==> #[trigger] listed[i].id != #[trigger] listed[j].id,
        forall|id: Seq<char>| #[trigger] reg@.by_id.dom().contains(id) ==> exists|i: int|
            0 <= i < listed.len() && #[trigger] listed[i].id == id,
{
    broadcast use vstd::seq_lib::group_to_multiset_ensures;

    reg.lemma_resources();
    let all = reg.resources();
    assert forall|i: int| 0 <= i < listed.len() implies reg@.by_id.dom().contains(#[trigger] listed[i].id)
        && reg@.by_id[listed[i].id] == listed[i] by {
        assert(listed.contains(listed[i]));
        assert(listed.to_multiset().count(listed[i]) > 0);
        assert(all.contains(listed[i]));
        let k = choose|k: int| 0 <= k < all.len() && all[k] == listed[i];
        assert(all[k].id == listed[i].id);
    }
    assert(all.no_duplicates()) by {
        assert forall|a: int, b: int| 0 <= a < all.len() && 0 <= b < all.len() && a != b implies all[a] != all[b] by {
            if a < b {
                assert(all[a].id != all[b].id);
            } else {
                assert(all[b].id != all[a].id);
            }
        }
    }
    all.lemma_multiset_has_no_duplicates();
    assert forall|x: ResourceModel| listed.to_multiset().contains(x) implies listed.to_multiset().count(x) == 1 by {}
    listed.lemma_multiset_has_no_duplicates_conv();
    assert forall|i: int, j: int| 0 <= i < j < listed.len() implies #[trigger] listed[i].id != #[trigger] listed[j].id by {
        assert(listed[i] != listed[j]);
        assert(reg@.by_id[listed[i].id] == listed[i]);
        assert(reg@.by_id[listed[j].id] == listed[j]);
    }
    assert forall|id: Seq<char>| #[trigger] reg@.by_id.dom().contains(id) implies exists|i: int|
        0 <= i < listed.len() && #[trigger] listed[i].id == id by {
        let k = choose|k: int| 0 <= k < all.len() && #[trigger] all[k].id == id;
        assert(all.contains(all[k]));
        assert(all.to_multiset().count(all[k]) > 0);
        assert(listed.contains(all[k]));
        let i = choose|i: int| 0 <= i < listed.len() && listed[i] == all[k];
        assert(listed[i].id == id);
    }
}

/// A page that subscribes to a result is offered the next change of it: the
/// last wake-up that change offers is on the page's channel, and if it was
/// delivered the page stays waiting, last in line, offered one wake-up.
pub proof fn law_a_subscription_is_offered_the_next_change(
    w: Map<Seq<char>, Seq<(int, nat)>>,
    id: Seq<char>,
    channel: int,
    after: Map<Seq<char>, Seq<(int, nat)>>,
    log_before: Seq<(int, bool)>,
    log_after: Seq<(int, bool)>,
)
    requires
        offered_to_all(subscribed(w, id, channel), after, log_before, log_after, id),
    ensures
        log_after.len() > log_before.len(),
        log_after.last().0 == channel,
        log_after.last().1 ==> after[id].last() == (channel, 1nat),
{
    let pages = subscribed(w, id, channel)[id];
    let fresh = log_after.skip(log_before.len() as int);
    let last = pages.len() - 1;
    assert(pages.last() == (channel, 0nat));
    assert(fresh[last] == log_after.last());
    assert(fresh[last].0 == pages[last].0);
    assert(outcomes(fresh).last() == log_after.last().1);
}

/// `x` is the entry of a page whose wake-up was delivered, offered one more.
spec fn kept_entry(pages: Seq<(int, nat)>, delivered: Seq<bool>, x: (int, nat)) -> bool {
    exists|i: int|
        0 <= i < pages.len() && delivered[i] && x == (#[trigger] pages[i].0, (pages[i].1 + 1) as nat)
}

/// Each wake-up `woken` keeps is a delivered one, and each delivered one is
/// kept: a page leaves only when its wake-up was not delivered.
proof fn lemma_woken_pages(pages: Seq<(int, nat)>, delivered: Seq<bool>)
    requires
        delivered.len() == pages.len(),
    ensures
        forall|i: int|
            0 <= i < pages.len() && #[trigger] delivered[i] ==> woken(pages, delivered).contains(
                (pages[i].0, (pages[i].1 + 1) as nat),
            ),
        forall|j: int|
            0 <= j < woken(pages, delivered).len() ==> kept_entry(
                pages,
                delivered,
                #[trigger] woken(pages, delivered)[j],
            ),
    decreases pages.len(),
{
    if pages.len() > 0 {
        let p2 = pages.drop_last();
        let d2 = delivered.drop_last();
        lemma_woken_pages(p2, d2);
        let rest = woken(p2, d2);
        let all = woken(pages, delivered);
        let last = pages.len() - 1;
        assert forall|i: int| 0 <= i < pages.len() && #[trigger] delivered[i] implies all.contains(
            (pages[i].0, (pages[i].1 + 1) as nat),
        ) by {
            if i < last {
                assert(p2[i] == pages[i] && d2[i] == delivered[i]);
                let k = choose|k: int| 0 <= k < rest.len() && rest[k] == (p2[i].0, (p2[i].1 + 1) as nat);
                assert(all[k] == rest[k]);
            } else {
                assert(all[all.len() - 1] == (pages[i].0, (pages[i].1 + 1) as nat));
            }
        }
        assert forall|j: int| 0 <= j < all.len() implies kept_entry(pages, delivered, #[trigger] all[j]) by {
            if j < rest.len() {
                assert(all[j] == rest[j]);
                assert(kept_entry(p2, d2, rest[j]));
                let i = choose|i: int|
                    0 <= i < p2.len() && d2[i] && rest[j] == (#[trigger] p2[i].0, (p2[i].1 + 1) as nat);
                assert(p2[i] == pages[i] && d2[i] == delivered[i]);
            } else {
                assert(delivered[last]);
                assert(all == rest.push((pages.last().0, (pages.last().1 + 1) as nat)));
                assert(all[j] == (pages[last].0, (pages[last].1 + 1) as nat));
            }
        }
    } else {
        assert(woken(pages, delivered) =~= Seq::<(int, nat)>::empty());
    }
}

/// After a render or progress, every page that was waiting on the result was
/// offered exactly one wake-up, in its order, on its own channel; a page
/// whose wake-up was delivered stays, offered one more, and a page leaves
/// only when its wake-up could not be delivered.
pub proof fn law_pages_leave_only_when_their_wake_up_fails(
    before: Map<Seq<char>, Seq<(int, nat)>>,
    after: Map<Seq<char>, Seq<(int, nat)>>,
    log_before: Seq<(int, bool)>,
    log_after: Seq<(int, bool)>,
    id: Seq<char>,
)
    requires
        offered_to_all(before, after, log_before, log_after, id),
        before.dom().contains(id),
    ensures
        ({
            let pages = before[id];
            let fresh = log_after.skip(log_before.len() as int);
            &&& fresh.len() == pages.len()
            &&& forall|i: int| 0 <= i < pages.len() ==> (#[trigger] fresh[i]).0 == pages[i].0
            &&& forall|i: int|
                0 <= i < pages.len() && (#[trigger] fresh[i]).1 ==> after[id].contains(
                    (pages[i].0, (pages[i].1 + 1) as nat),
                )
            &&& forall|j: int|
                0 <= j < after[id].len() ==> exists|i: int|
                    0 <= i < pages.len() && (#[trigger] fresh[i]).1 && #[trigger] after[id][j] == (
                        pages[i].0,
                        (pages[i].1 + 1) as nat,
                    )
            &&& after[id].len() <= pages.len()
            &&& (forall|i: int| 0 <= i < pages.len() ==> (#[trigger] fresh[i]).1) ==> after[id]
                == pages.map_values(|c: (int, nat)| (c.0, (c.1 + 1) as nat))
        }),
{
    let pages = before[id];
    let fresh = log_after.skip(log_before.len() as int);
    let delivered = outcomes(fresh);
    assert(fresh.len() == pages.len());
    assert(after[id] == woken(pages, delivered));
    lemma_woken_pages(pages, delivered);
    law_each_change_wakes_every_listening_page(pages, delivered);
    assert forall|i: int| 0 <= i < pages.len() && (#[trigger] fresh[i]).1 implies after[id].contains(
        (pages[i].0, (pages[i].1 + 1) as nat),
    ) by {
        assert(delivered[i]);
    }
    assert forall|j: int| 0 <= j < after[id].len() implies exists|i: int|
        0 <= i < pages.len() && (#[trigger] fresh[i]).1 && #[trigger] after[id][j] == (
            pages[i].0,
            (pages[i].1 + 1) as nat,
        ) by {
        assert(after[id][j] == woken(pages, delivered)[j]);
        assert(kept_entry(pages, delivered, woken(pages, delivered)[j]));
        let i = choose|i: int|
            0 <= i < pages.len() && delivered[i] && woken(pages, delivered)[j] == (
                #[trigger] pages[i].0,
                (pages[i].1 + 1) as nat,
            );
        assert(fresh[i].1);
    }
    if forall|i: int| 0 <= i < pages.len() ==> (#[trigger] fresh[i]).1 {
        assert forall|i: int| 0 <= i < delivered.len() implies #[trigger] delivered[i] by {
            assert(fresh[i].1);
        }
    }
}

/// Once shown, a URI is known, under the id it hashes to, and a resource
/// with that id exists.
pub proof fn law_shown_uris_are_known(m: RegistryModel, title: Seq<char>, uri: Seq<char>)
    ensures
        registered(m, title, uri).id_by_uri.dom().contains(uri),
        registered(m, title, uri).id_by_uri[uri] == resource_id_of(uri),
        registered(m, title, uri).by_id.dom().contains(resource_id_of(uri)),
{
}

/// Showing the same URI again keeps its id and its resource, render and all.
pub proof fn law_showing_again_keeps_the_resource(
    m: RegistryModel,
    t1: Seq<char>,
    t2: Seq<char>,
    uri: Seq<char>,
)
    ensures
        registered(registered(m, t1, uri), t2, uri).by_id == registered(m, t1, uri).by_id,
        registered(registered(m, t1, uri), t2, uri).id_by_uri == registered(m, t1, uri).id_by_uri,
{
    assert(registered(registered(m, t1, uri), t2, uri).id_by_uri =~= registered(m, t1, uri).id_by_uri);
}

/// What the server rendered for a shown URI is what the registry then holds
/// for it, and the resource is no longer running; nothing else changes.
pub proof fn law_renders_are_read_back(m: RegistryModel, uri: Seq<char>, html: Seq<char>)
    requires
        m.id_by_uri.dom().contains(uri),
        m.by_id.dom().contains(m.id_by_uri[uri]),
    ensures
        rendered(m, uri, html).by_id[m.id_by_uri[uri]].html == Some(html),
        !rendered(m, uri, html).by_id[m.id_by_uri[uri]].running,
        rendered(m, uri, html).by_id[m.id_by_uri[uri]].title == m.by_id[m.id_by_uri[uri]].title,
        forall|k: Seq<char>| k != m.id_by_uri[uri] ==> #[trigger] rendered(m, uri, html).by_id.get(k) == m.by_id.get(k),
        rendered(m, uri, html).id_by_uri == m.id_by_uri,
{
}

/// Progress marks a shown resource as running and keeps its last render.
pub proof fn law_progress_marks_running(m: RegistryModel, uri: Seq<char>)
    requires
        m.id_by_uri.dom().contains(uri),
        m.by_id.dom().contains(m.id_by_uri[uri]),
    ensures
        started(m, uri).by_id[m.id_by_uri[uri]].running,
        started(m, uri).by_id[m.id_by_uri[uri]].html == m.by_id[m.id_by_uri[uri]].html,
{
}

/// Renders and progress for a URI that was never shown change nothing.
pub proof fn law_unknown_uris_are_ignored(m: RegistryModel, uri: Seq<char>, html: Seq<char>)
    requires
        !m.id_by_uri.dom().contains(uri),
    ensures
        rendered(m, uri, html) == m,
        started(m, uri) == m,
{
}
} // verus!
