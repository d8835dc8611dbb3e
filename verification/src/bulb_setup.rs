//! The bulb setup screen's state: bulbs known so far, which of them drive the
//! ambient lights, and whether a network scan is running.

use vstd::prelude::*;

use crate::ambient::{find_bulb, first_bulb, lemma_first_bulb, BulbInfo};

verus! {

impl Clone for BulbInfo {
    fn clone(&self) -> (out: Self)
        ensures
            out == *self,
    {
        let name = match &self.name {
            Some(n) => Some(n.clone()),
            None => None,
        };
        BulbInfo { mac: self.mac.clone(), ip: self.ip, name }
    }
}

/// Events of the bulb setup screen.
#[derive(Debug)]
pub enum BulbSetupMessage {
    Scan,
    BulbsDiscovered(Vec<BulbInfo>),
    ToggleBulb(String),
    Done,
}

/// Follow-up work an update asks of the application.
#[derive(Debug, Clone, Copy, PartialEq, Eq, Structural)]
pub enum BulbSetupCommand {
    /// Nothing to do.
    Nothing,
    /// Run a network discovery and report its result as `BulbsDiscovered`.
    Discover,
}

/// The set of MAC addresses held by a list of strings.
pub open spec fn mac_set(macs: Seq<String>) -> Set<Seq<char>> {
    Set::new(|m: Seq<char>| exists|i: int| 0 <= i < macs.len() && (#[trigger] macs[i])@ == m)
}

/// No MAC address occurs twice.
pub open spec fn distinct_macs(macs: Seq<String>) -> bool {
    forall|i: int, j: int| 0 <= i < j < macs.len() ==> (#[trigger] macs[i])@ != (#[trigger] macs[j])@
}

/// Some bulb of the list has this MAC address.
pub open spec fn knows_mac(bulbs: Seq<BulbInfo>, mac: Seq<char>) -> bool {
    exists|i: int| 0 <= i < bulbs.len() && (#[trigger] bulbs[i]).mac@ == mac
}

/// Fold one discovered bulb into the list: the first bulb with its MAC takes
/// its IP (and its name, when it has one); an unknown MAC is appended.
pub open spec fn merge_bulb(bulbs: Seq<BulbInfo>, found: BulbInfo) -> Seq<BulbInfo> {
    match first_bulb(bulbs, found.mac@) {
        Some(i) => bulbs.update(
            i,
            BulbInfo {
                mac: bulbs[i].mac,
                ip: found.ip,
                name: if found.name is Some { found.name } else { bulbs[i].name },
            },
        ),
        None => bulbs.push(found),
    }
}

/// Fold a whole discovery result into the list, in order.
pub open spec fn merge_bulbs(bulbs: Seq<BulbInfo>, found: Seq<BulbInfo>) -> Seq<BulbInfo>
    decreases found.len(),
{
    if found.len() == 0 {
        bulbs
    } else {
        merge_bulb(merge_bulbs(bulbs, found.drop_last()), found.last())
    }
}

/// The selection after toggling `mac`.
pub open spec fn toggled(selected: Set<Seq<char>>, mac: Seq<char>) -> Set<Seq<char>> {
    if selected.contains(mac) { selected.remove(mac) } else { selected.insert(mac) }
}

/// The MAC addresses of a list of strings, in order.
pub open spec fn mac_seq(macs: Seq<String>) -> Seq<Seq<char>> {
    macs.map_values(|s: String| s@)
}

/// The selection order after toggling `mac`: a selected MAC is taken out
/// where it stands, an unselected one is appended.
pub open spec fn toggled_order(order: Seq<Seq<char>>, mac: Seq<char>) -> Seq<Seq<char>> {
    if order.contains(mac) {
        order.remove(choose|i: int| 0 <= i < order.len() && order[i] == mac)
    } else {
        order.push(mac)
    }
}

/// The saved selection that is kept, in order: each MAC that a saved bulb
/// has, at its first occurrence.
pub open spec fn kept_selection(macs: Seq<String>, bulbs: Seq<BulbInfo>) -> Seq<Seq<char>>
    decreases macs.len(),
{
    if macs.len() == 0 {
        Seq::empty()
    } else {
        let prev = kept_selection(macs.drop_last(), bulbs);
        let m = macs.last()@;
        if knows_mac(bulbs, m) && !prev.contains(m) { prev.push(m) } else { prev }
    }
}

/// State of the bulb setup screen.
pub struct BulbSetupState {
    discovered_bulbs: Vec<BulbInfo>,
    selected_bulbs: Vec<String>,
    is_scanning: bool,
}

impl BulbSetupState {
    #[verifier::type_invariant]
    closed spec fn selection_distinct(self) -> bool {
        distinct_macs(self.selected_bulbs@)
    }

    /// Bulbs known to the screen, in discovery order.
    pub closed spec fn discovered(self) -> Seq<BulbInfo> {
        self.discovered_bulbs@
    }

    /// MAC addresses of the bulbs selected for ambient lighting.
    pub closed spec fn selected(self) -> Set<Seq<char>> {
        mac_set(self.selected_bulbs@)
    }

    /// MAC addresses of the selected bulbs in the order they were selected.
    pub closed spec fn selection(self) -> Seq<Seq<char>> {
        mac_seq(self.selected_bulbs@)
    }

    /// Whether a discovery scan is running.
    pub closed spec fn scanning(self) -> bool {
        self.is_scanning
    }

    /// Start from saved bulbs and a saved selection; only selections that
    /// correspond to a saved bulb are kept.
    pub fn new(saved_bulbs: Vec<BulbInfo>, selected_macs: Vec<String>) -> (out: Self)
        ensures
            out.discovered() == saved_bulbs@,
            out.selected() == mac_set(selected_macs@).filter(|m: Seq<char>| knows_mac(saved_bulbs@, m)),
            out.selection() == kept_selection(selected_macs@, saved_bulbs@),
            !out.scanning(),
    {
        let mut selected: Vec<String> = Vec::new();
        let nb = saved_bulbs.len();
        let mut i: usize = 0;
        while i < selected_macs.len()
            invariant
                nb == saved_bulbs@.len(),
                i <= selected_macs@.len(),
                distinct_macs(selected@),
                mac_seq(selected@) == kept_selection(selected_macs@.take(i as int), saved_bulbs@),
                mac_set(selected@) == mac_set(selected_macs@.take(i as int)).filter(
                    |m: Seq<char>| knows_mac(saved_bulbs@, m),
                ),
            decreases selected_macs@.len() - i,
        {
            let mac = &selected_macs[i];
            let known = find_bulb(saved_bulbs.as_slice(), mac);
            proof { lemma_first_bulb(saved_bulbs@, mac@); }
            let dup = contains_mac(&selected, mac);
            let ghost before = selected@;
            proof {
                assert(mac_seq(before).contains(mac@) == mac_set(before).contains(mac@)) by {
                    if mac_seq(before).contains(mac@) {
                        let w = choose|w: int| 0 <= w < mac_seq(before).len() && mac_seq(before)[w] == mac@;
                        assert(before[w]@ == mac@);
                    }
                    if mac_set(before).contains(mac@) {
                        let w = choose|w: int| 0 <= w < before.len() && (#[trigger] before[w])@ == mac@;
                        assert(mac_seq(before)[w] == mac@);
                    }
                }
            }
            if known.is_some() && !dup {
                selected.push(mac.clone());
                assert forall|a: int, b: int| 0 <= a < b < selected@.len() implies (#[trigger] selected@[a])@
                    != (#[trigger] selected@[b])@ by {
                    if b == selected@.len() - 1 {
                        assert(selected@[a] == before[a]);
                    }
                }
            }
            proof {
                if let Some(k) = known {
                    assert(saved_bulbs@[k as int].mac@ == mac@);
                    assert(knows_mac(saved_bulbs@, mac@));
                } else {
                    assert(!knows_mac(saved_bulbs@, mac@));
                }
                assert(selected_macs@.take(i + 1) == selected_macs@.take(i as int).push(selected_macs@[i as int]));
                assert(selected_macs@.take(i + 1).drop_last() =~= selected_macs@.take(i as int));
                assert(mac_seq(selected@) =~= kept_selection(selected_macs@.take(i + 1), saved_bulbs@));
                assert(mac_set(selected@) =~= mac_set(selected_macs@.take(i + 1)).filter(
                    |m: Seq<char>| knows_mac(saved_bulbs@, m),
                )) by {
                    assert forall|m: Seq<char>| mac_set(selected@).contains(m) implies mac_set(
                        selected_macs@.take(i + 1),
                    ).filter(|m: Seq<char>| knows_mac(saved_bulbs@, m)).contains(m) by {
                        let w = choose|w: int| 0 <= w < selected@.len() && (#[trigger] selected@[w])@ == m;
                        if w < before.len() {
                            assert(selected@[w] == before[w]);
                            assert(mac_set(before).contains(m));
                            let v = choose|v: int| 0 <= v < i && (#[trigger] selected_macs@.take(i as int)[v])@ == m;
                            assert(selected_macs@.take(i + 1)[v] == selected_macs@.take(i as int)[v]);
                        } else {
                            assert(selected_macs@.take(i + 1)[i as int] == selected_macs@[i as int]);
                        }
                    }
                    assert forall|m: Seq<char>| mac_set(selected_macs@.take(i + 1)).filter(
                        |m: Seq<char>| knows_mac(saved_bulbs@, m),
                    ).contains(m) implies mac_set(selected@).contains(m) by {
                        let v = choose|v: int| 0 <= v < i + 1 && (#[trigger] selected_macs@.take(i + 1)[v])@ == m;
                        if v < i {
                            assert(selected_macs@.take(i as int)[v] == selected_macs@.take(i + 1)[v]);
                            assert(mac_set(before).contains(m));
                            let w = choose|w: int| 0 <= w < before.len() && (#[trigger] before[w])@ == m;
                            assert(selected@[w] == before[w]);
                        } else {
                            assert(selected_macs@.take(i + 1)[v] == selected_macs@[i as int]);
                            if dup {
                                let w = choose|w: int| 0 <= w < before.len() && (#[trigger] before[w])@ == mac@;
                                assert(selected@[w] == before[w]);
                            } else {
                                assert(selected@[before.len() as int]@ == mac@);
                            }
                        }
                    }
                }
            }
            i = i + 1;
        }
        assert(selected_macs@.take(selected_macs@.len() as int) =~= selected_macs@);
        BulbSetupState { discovered_bulbs: saved_bulbs, selected_bulbs: selected, is_scanning: false }
    }

    /// Bulbs known to the screen.
    pub fn discovered_bulbs(&self) -> (out: &[BulbInfo])
        ensures
            out@ == self.discovered(),
    {
        self.discovered_bulbs.as_slice()
    }

    /// Selected MAC addresses, each once.
    pub fn selected_bulbs(&self) -> (out: &[String])
        ensures
            mac_set(out@) == self.selected(),
            mac_seq(out@) == self.selection(),
            distinct_macs(out@),
    {
        proof { use_type_invariant(self); }
        self.selected_bulbs.as_slice()
    }

    /// Whether a discovery scan is running.
    pub fn is_scanning(&self) -> (b: bool)
        ensures
            b == self.scanning(),
    {
        self.is_scanning
    }

    /// Whether at least one bulb is selected.
    pub fn has_selected_bulbs(&self) -> (b: bool)
        ensures
            b == !self.selected().is_empty(),
    {
        let n = self.selected_bulbs.len();
        proof {
            if n > 0 {
                assert(mac_set(self.selected_bulbs@).contains(self.selected_bulbs@[0]@));
            } else {
                assert(mac_set(self.selected_bulbs@) =~= Set::empty());
            }
        }
        n > 0
    }

    /// Selected MAC addresses as an owned list, each once.
    pub fn selected_bulbs_vec(&self) -> (out: Vec<String>)
        ensures
            mac_set(out@) == self.selected(),
            mac_seq(out@) == self.selection(),
            distinct_macs(out@),
    {
        proof { use_type_invariant(self); }
        let mut out: Vec<String> = Vec::new();
        let mut i: usize = 0;
        while i < self.selected_bulbs.len()
            invariant
                i <= self.selected_bulbs@.len(),
                out@ == self.selected_bulbs@.take(i as int),
            decreases self.selected_bulbs@.len() - i,
        {
            out.push(self.selected_bulbs[i].clone());
            i = i + 1;
            assert(out@ =~= self.selected_bulbs@.take(i as int));
        }
        assert(out@ =~= self.selected_bulbs@);
        out
    }

    /// The selected bulbs among the known ones, in discovery order.
    pub fn selected_bulb_infos(&self) -> (out: Vec<BulbInfo>)
        ensures
            out@ == self.discovered().filter(|b: BulbInfo| self.selected().contains(b.mac@)),
    {
        let ghost sel = self.selected();
        let mut out: Vec<BulbInfo> = Vec::new();
        let mut i: usize = 0;
        while i < self.discovered_bulbs.len()
            invariant
                i <= self.discovered_bulbs@.len(),
                sel == mac_set(self.selected_bulbs@),
                out@ == self.discovered_bulbs@.take(i as int).filter(|b: BulbInfo| sel.contains(b.mac@)),
            decreases self.discovered_bulbs@.len() - i,
        {
            let b = &self.discovered_bulbs[i];
            let chosen = contains_mac(&self.selected_bulbs, &b.mac);
            proof {
                let t = self.discovered_bulbs@.take(i + 1);
                assert(t.drop_last() =~= self.discovered_bulbs@.take(i as int));
                reveal_with_fuel(Seq::<_>::filter, 1);
                assert(t.last() == self.discovered_bulbs@[i as int]);
            }
            if chosen {
                out.push(b.clone());
            }
            i = i + 1;
        }
        assert(self.discovered_bulbs@.take(self.discovered_bulbs@.len() as int) =~= self.discovered_bulbs@);
        out
    }

    /// Toggle the selection of one bulb.
    pub fn toggle(&mut self, mac: String)
        ensures
            final(self).selected() == toggled(old(self).selected(), mac@),
            final(self).selection() == toggled_order(old(self).selection(), mac@),
            final(self).discovered() == old(self).discovered(),
            final(self).scanning() == old(self).scanning(),
    {
        proof { use_type_invariant(&*self); }
        let ghost before = self.selected_bulbs@;
        let pos = index_of_mac(&self.selected_bulbs, &mac);
        if let Some(idx) = pos {
            let mut rest: Vec<String> = Vec::new();
            std::mem::swap(&mut rest, &mut self.selected_bulbs);
            rest.remove(idx);
            proof {
                assert forall|a: int, b: int| 0 <= a < b < rest@.len() implies (#[trigger] rest@[a])@
                    != (#[trigger] rest@[b])@ by {
                    let a0 = if a < idx { a } else { a + 1 };
                    let b0 = if b < idx { b } else { b + 1 };
                    assert(rest@[a] == before[a0]);
                    assert(rest@[b] == before[b0]);
                }
                assert(mac_set(rest@) =~= mac_set(before).remove(mac@)) by {
                    assert forall|m: Seq<char>| mac_set(rest@).contains(m) implies mac_set(before).remove(mac@).contains(m) by {
                        let w = choose|w: int| 0 <= w < rest@.len() && (#[trigger] rest@[w])@ == m;
                        let w0 = if w < idx { w } else { w + 1 };
                        assert(rest@[w] == before[w0]);
                        assert(before[idx as int]@ == mac@);
                    }
                    assert forall|m: Seq<char>| mac_set(before).remove(mac@).contains(m) implies mac_set(rest@).contains(m) by {
                        let w = choose|w: int| 0 <= w < before.len() && (#[trigger] before[w])@ == m;
                        if w < idx {
                            assert(rest@[w] == before[w]);
                        } else if w > idx {
                            assert(rest@[w - 1] == before[w]);
                        }
                    }
                }
                assert(mac_set(before).contains(mac@));
                let order = mac_seq(before);
                assert(order[idx as int] == mac@);
                let c = choose|c: int| 0 <= c < order.len() && order[c] == mac@;
                assert(before[c]@ == mac@ && before[idx as int]@ == mac@);
                assert(c == idx as int);
                assert(mac_seq(rest@) =~= order.remove(idx as int));
            }
            self.selected_bulbs = rest;
        } else {
            proof {
                assert(!mac_set(before).contains(mac@));
                if mac_seq(before).contains(mac@) {
                    let w = choose|w: int| 0 <= w < mac_seq(before).len() && mac_seq(before)[w] == mac@;
                    assert(before[w]@ == mac@);
                }
            }
            let mut grown: Vec<String> = Vec::new();
            std::mem::swap(&mut grown, &mut self.selected_bulbs);
            grown.push(mac);
            proof {
                assert forall|a: int, b: int| 0 <= a < b < grown@.len() implies (#[trigger] grown@[a])@
                    != (#[trigger] grown@[b])@ by {
                    if b == before.len() {
                        assert(grown@[a] == before[a]);
                    } else {
                        assert(grown@[a] == before[a]);
                        assert(grown@[b] == before[b]);
                    }
                }
                assert(mac_set(grown@) =~= mac_set(before).insert(mac@)) by {
                    assert forall|m: Seq<char>| mac_set(grown@).contains(m) implies mac_set(before).insert(mac@).contains(m) by {
                        let w = choose|w: int| 0 <= w < grown@.len() && (#[trigger] grown@[w])@ == m;
                        if w < before.len() {
                            assert(grown@[w] == before[w]);
                        }
                    }
                    assert forall|m: Seq<char>| mac_set(before).insert(mac@).contains(m) implies mac_set(grown@).contains(m) by {
                        if m == mac@ {
                            assert(grown@[before.len() as int]@ == m);
                        } else {
                            let w = choose|w: int| 0 <= w < before.len() && (#[trigger] before[w])@ == m;
                            assert(grown@[w] == before[w]);
                        }
                    }
                }
            }
            assert(mac_seq(grown@) =~= mac_seq(before).push(mac@));
            self.selected_bulbs = grown;
        }
    }
}

impl BulbSetupState {
    /// Fold a discovery result into the known bulbs: a known MAC gets the new
    /// IP (and name, when one was discovered), an unknown one is appended.
    pub fn merge_discovered(&mut self, new_bulbs: Vec<BulbInfo>)
        ensures
            final(self).discovered() == merge_bulbs(old(self).discovered(), new_bulbs@),
            final(self).selected() == old(self).selected(),
            final(self).selection() == old(self).selection(),
            final(self).scanning() == old(self).scanning(),
    {
        proof { use_type_invariant(&*self); }
        let mut list: Vec<BulbInfo> = Vec::new();
        std::mem::swap(&mut list, &mut self.discovered_bulbs);
        let ghost start = list@;
        let mut i: usize = 0;
        while i < new_bulbs.len()
            invariant
                i <= new_bulbs@.len(),
                list@ == merge_bulbs(start, new_bulbs@.take(i as int)),
            decreases new_bulbs@.len() - i,
        {
            let found = new_bulbs[i].clone();
            let ghost prev = list@;
            let ghost f = found;
            proof {
                assert(new_bulbs@.take(i + 1).drop_last() =~= new_bulbs@.take(i as int));
                lemma_first_bulb(list@, found.mac@);
            }
            let known_count = list.len();
            assert(known_count == prev.len());
            match find_bulb(list.as_slice(), &found.mac) {
                Some(j) => {
                    let mac = list[j].mac.clone();
                    let name = match found.name {
                        Some(n) => Some(n),
                        None => match &list[j].name {
                            Some(n) => Some(n.clone()),
                            None => None,
                        },
                    };
                    let updated = BulbInfo { mac, ip: found.ip, name };
                    assert(updated == BulbInfo {
                        mac: prev[j as int].mac,
                        ip: f.ip,
                        name: if f.name is Some { f.name } else { prev[j as int].name },
                    });
                    list.set(j, updated);
                    assert(list@ == merge_bulb(prev, f));
                },
                None => {
                    assert(first_bulb(prev, f.mac@) is None);
                    list.push(found);
                    assert(list@ == prev.push(f));
                    assert(list@ == merge_bulb(prev, f));
                },
            }
            assert(list@ == merge_bulb(merge_bulbs(start, new_bulbs@.take(i as int)), new_bulbs@[i as int]));
            assert(new_bulbs@.take(i + 1).last() == new_bulbs@[i as int]);
            i = i + 1;
        }
        self.discovered_bulbs = list;
        assert(new_bulbs@.take(new_bulbs@.len() as int) =~= new_bulbs@);
    }

    /// Handle one screen event; the result says what the application must run next.
    pub fn update(&mut self, msg: BulbSetupMessage) -> (cmd: BulbSetupCommand)
        ensures
            match msg {
                BulbSetupMessage::Scan => {
                    &&& final(self).scanning()
                    &&& final(self).discovered() == old(self).discovered()
                    &&& final(self).selected() == old(self).selected()
                    &&& final(self).selection() == old(self).selection()
                    &&& cmd == BulbSetupCommand::Discover
                },
                BulbSetupMessage::BulbsDiscovered(found) => {
                    &&& !final(self).scanning()
                    &&& final(self).discovered() == merge_bulbs(old(self).discovered(), found@)
                    &&& final(self).selected() == old(self).selected()
                    &&& final(self).selection() == old(self).selection()
                    &&& cmd == BulbSetupCommand::Nothing
                },
                BulbSetupMessage::ToggleBulb(mac) => {
                    &&& final(self).scanning() == old(self).scanning()
                    &&& final(self).discovered() == old(self).discovered()
                    &&& final(self).selected() == toggled(old(self).selected(), mac@)
                    &&& final(self).selection() == toggled_order(old(self).selection(), mac@)
                    &&& cmd == BulbSetupCommand::Nothing
                },
                BulbSetupMessage::Done => {
                    &&& final(self).scanning() == old(self).scanning()
                    &&& final(self).discovered() == old(self).discovered()
                    &&& final(self).selected() == old(self).selected()
                    &&& final(self).selection() == old(self).selection()
                    &&& cmd == BulbSetupCommand::Nothing
                },
            },
    {
        proof { use_type_invariant(&*self); }
        match msg {
            BulbSetupMessage::Scan => {
                self.is_scanning = true;
                BulbSetupCommand::Discover
            },
            BulbSetupMessage::BulbsDiscovered(found) => {
                self.is_scanning = false;
                self.merge_discovered(found);
                BulbSetupCommand::Nothing
            },
            BulbSetupMessage::ToggleBulb(mac) => {
                self.toggle(mac);
                BulbSetupCommand::Nothing
            },
            BulbSetupMessage::Done => BulbSetupCommand::Nothing,
        }
    }
}

/// Toggling the same bulb twice leaves the selection as it was.
pub proof fn lemma_toggle_twice(selected: Set<Seq<char>>, mac: Seq<char>)
    ensures
        toggled(toggled(selected, mac), mac) == selected,
{
    if selected.contains(mac) {
        assert(selected.remove(mac).insert(mac) =~= selected);
    } else {
        assert(selected.insert(mac).remove(mac) =~= selected);
    }
}

/// No two bulbs of the list share a MAC address.
pub open spec fn distinct_bulbs(bulbs: Seq<BulbInfo>) -> bool {
    forall|i: int, j: int| 0 <= i < j < bulbs.len() ==> (#[trigger] bulbs[i]).mac@ != (#[trigger] bulbs[j]).mac@
}

/// Merging a discovery result keeps every known bulb at its place with its
/// MAC, and afterwards exactly the MACs known before or discovered are known;
/// a list without repeated MACs stays without them.
pub proof fn lemma_merge_bulbs(bulbs: Seq<BulbInfo>, found: Seq<BulbInfo>)
    ensures
        merge_bulbs(bulbs, found).len() >= bulbs.len(),
        forall|i: int| 0 <= i < bulbs.len() ==> (#[trigger] merge_bulbs(bulbs, found)[i]).mac == bulbs[i].mac,
        forall|m: Seq<char>| #[trigger] knows_mac(merge_bulbs(bulbs, found), m) <==> (knows_mac(bulbs, m) || knows_mac(found, m)),
        distinct_bulbs(bulbs) ==> distinct_bulbs(merge_bulbs(bulbs, found)),
    decreases found.len(),
{
    if found.len() > 0 {
        let prev = found.drop_last();
        let f = found.last();
        lemma_merge_bulbs(bulbs, prev);
        let l = merge_bulbs(bulbs, prev);
        let r = merge_bulb(l, f);
        assert(r == merge_bulbs(bulbs, found));
        lemma_first_bulb(l, f.mac@);
        assert forall|i: int| 0 <= i < bulbs.len() implies (#[trigger] r[i]).mac == bulbs[i].mac by {
            assert(l[i].mac == bulbs[i].mac);
        }
        assert forall|m: Seq<char>| #[trigger] knows_mac(r, m) <==> (knows_mac(bulbs, m) || knows_mac(found, m)) by {
            assert(knows_mac(l, m) <==> (knows_mac(bulbs, m) || knows_mac(prev, m)));
            if knows_mac(found, m) && !knows_mac(prev, m) {
                let k = choose|k: int| 0 <= k < found.len() && (#[trigger] found[k]).mac@ == m;
                if k < prev.len() {
                    assert(prev[k] == found[k]);
                }
            }
            if knows_mac(prev, m) {
                let k = choose|k: int| 0 <= k < prev.len() && (#[trigger] prev[k]).mac@ == m;
                assert(found[k] == prev[k]);
            }
            if knows_mac(l, m) {
                let k = choose|k: int| 0 <= k < l.len() && (#[trigger] l[k]).mac@ == m;
                assert(r[k].mac == l[k].mac);
            }
            if knows_mac(r, m) {
                let k = choose|k: int| 0 <= k < r.len() && (#[trigger] r[k]).mac@ == m;
                if k < l.len() {
                    assert(r[k].mac == l[k].mac);
                } else {
                    assert(found[found.len() - 1] == f);
                }
            }
            if m == f.mac@ {
                match first_bulb(l, f.mac@) {
                    Some(j) => { assert(r[j].mac == l[j].mac); },
                    None => { assert(r[l.len() as int] == f); },
                }
            }
        }
        if distinct_bulbs(bulbs) {
            assert forall|i: int, j: int| 0 <= i < j < r.len() implies (#[trigger] r[i]).mac@ != (#[trigger] r[j]).mac@ by {
                match first_bulb(l, f.mac@) {
                    Some(k) => {
                        assert(r[i].mac == l[i].mac);
                        assert(r[j].mac == l[j].mac);
                    },
                    None => {
                        if j == l.len() {
                            assert(r[i] == l[i]);
                        } else {
                            assert(r[i] == l[i]);
                            assert(r[j] == l[j]);
                        }
                    },
                }
            }
        }
    }
}

/// Position of the first string of the list that equals `mac`.
fn index_of_mac(macs: &Vec<String>, mac: &String) -> (out: Option<usize>)
    ensures
        match out {
            Some(i) => i < macs@.len() && macs@[i as int]@ == mac@,
            None => !mac_set(macs@).contains(mac@),
        },
{
    let mut i: usize = 0;
    while i < macs.len()
        invariant
            i <= macs@.len(),
            forall|k: int| 0 <= k < i ==> (#[trigger] macs@[k])@ != mac@,
        decreases macs@.len() - i,
    {
        if macs[i] == *mac {
            return Some(i);
        }
        i = i + 1;
    }
    None
}

/// Whether some string of the list equals `mac`.
fn contains_mac(macs: &Vec<String>, mac: &String) -> (b: bool)
    ensures
        b == mac_set(macs@).contains(mac@),
{
    let pos = index_of_mac(macs, mac);
    proof {
        if let Some(i) = pos {
            assert(mac_set(macs@).contains(macs@[i as int]@));
        }
    }
    pos.is_some()
}

} // verus!
