//! GPU adapter choice: the picker's options and matching a saved preference
//! against the adapters present.

use vstd::prelude::*;

verus! {

/// The graphics API an adapter is driven through.
#[derive(Debug, Clone, Copy, PartialEq, Eq, Structural)]
pub enum GraphicsBackend {
    Noop,
    Vulkan,
    Metal,
    Dx12,
    Gl,
    BrowserWebGpu,
}

/// A GPU adapter: its reported name and its backend.
#[derive(Debug)]
pub struct GpuAdapter {
    pub name: String,
    pub backend: GraphicsBackend,
}

impl Clone for GpuAdapter {
    fn clone(&self) -> (out: Self)
        ensures
            out == *self,
    {
        GpuAdapter { name: self.name.clone(), backend: self.backend }
    }
}

/// The adapter the user picked: the default one, or a named adapter.
#[derive(Debug)]
pub enum GpuAdapterSelection {
    Auto,
    Named(GpuAdapter),
}

/// The lowercase form of a string as std's `str::to_lowercase` computes it.
pub uninterp spec fn lowercase_of(s: Seq<char>) -> Seq<char>;

/// Lowercases with std's `str::to_lowercase`: the result is `lowercase_of`
/// the input's characters.
#[verifier::external_body]
fn to_lowercase(s: &str) -> (out: String)
    ensures
        out@ == lowercase_of(s@),
{
    s.to_lowercase()
}

/// The `n` bytes of `hay` from position `i`.
pub open spec fn window(hay: Seq<u8>, i: int, n: int) -> Seq<u8> {
    hay.subrange(i, i + n)
}

/// `needle` occurs in `hay` as a contiguous run.
pub open spec fn occurs_in(hay: Seq<u8>, needle: Seq<u8>) -> bool {
    exists|i: int| 0 <= i && i + needle.len() <= hay.len() && #[trigger] window(hay, i, needle.len() as int) == needle
}

/// Whether `needle` occurs in `hay` as a contiguous run of bytes.
pub(crate) fn bytes_contain(hay: &[u8], needle: &[u8]) -> (b: bool)
    ensures
        b == occurs_in(hay@, needle@),
{
    let hl = hay.len();
    let nl = needle.len();
    if nl > hl {
        return false;
    }
    let last = hl - nl;
    let mut i: usize = 0;
    loop
        invariant
            hl == hay@.len(),
            nl == needle@.len(),
            last == hl - nl,
            i <= last,
            forall|k: int| 0 <= k < i ==> #[trigger] window(hay@, k, nl as int) != needle@,
        decreases last - i,
    {
        let mut j: usize = 0;
        let mut same = true;
        assert(hay@.subrange(i as int, i as int) =~= needle@.subrange(0, 0));
        while j < nl
            invariant
                hl == hay@.len(),
                nl == needle@.len(),
                i <= last,
                last == hl - nl,
                j <= nl,
                same == (hay@.subrange(i as int, i + j) == needle@.subrange(0, j as int)),
            decreases nl - j,
        {
            let differs = hay[i + j] != needle[j];
            proof {
                if same && !differs {
                    assert(hay@.subrange(i as int, i + j + 1) =~= needle@.subrange(0, j + 1));
                }
                if hay@.subrange(i as int, i + j + 1) == needle@.subrange(0, j + 1) {
                    assert(hay@.subrange(i as int, i + j) =~= hay@.subrange(i as int, i + j + 1).subrange(0, j as int));
                    assert(needle@.subrange(0, j as int) =~= needle@.subrange(0, j + 1).subrange(0, j as int));
                    assert(hay@.subrange(i as int, i + j + 1)[j as int] == needle@.subrange(0, j + 1)[j as int]);
                }
            }
            if differs {
                same = false;
            }
            j = j + 1;
        }
        assert(needle@.subrange(0, nl as int) =~= needle@);
        assert(window(hay@, i as int, nl as int) == hay@.subrange(i as int, i + nl));
        if same {
            return true;
        }
        if i == last {
            assert forall|k: int| 0 <= k && k + needle@.len() <= hay@.len() implies #[trigger] window(hay@, k, needle@.len() as int)
                != needle@ by {
                if k < i {
                } else {
                    assert(k == i);
                }
            }
            return false;
        }
        i = i + 1;
    }
}

/// The adapter's name, lowercased, contains the preferred name, lowercased,
/// as UTF-8 text.
pub open spec fn name_matches(adapter_name: Seq<char>, preferred_name: Seq<char>) -> bool {
    occurs_in(
        vstd::utf8::encode_utf8(lowercase_of(adapter_name)),
        vstd::utf8::encode_utf8(lowercase_of(preferred_name)),
    )
}

/// The adapter matches the preference: case-insensitive name containment and
/// the same backend.
pub open spec fn adapter_matches(a: GpuAdapter, pref: GpuAdapter) -> bool {
    name_matches(a.name@, pref.name@) && a.backend == pref.backend
}

/// The picker's options: `Auto` first, then each adapter in order.
pub fn build_picker_options(adapters: &[GpuAdapter]) -> (options: Vec<GpuAdapterSelection>)
    ensures
        options@.len() == adapters@.len() + 1,
        options@[0] is Auto,
        forall|i: int| 0 <= i < adapters@.len() ==> #[trigger] options@[i + 1] == GpuAdapterSelection::Named(adapters@[i]),
{
    let mut options: Vec<GpuAdapterSelection> = Vec::new();
    options.push(GpuAdapterSelection::Auto);
    let mut i: usize = 0;
    while i < adapters.len()
        invariant
            i <= adapters@.len(),
            options@.len() == i + 1,
            options@[0] is Auto,
            forall|k: int| 0 <= k < i ==> #[trigger] options@[k + 1] == GpuAdapterSelection::Named(adapters@[k]),
        decreases adapters@.len() - i,
    {
        options.push(GpuAdapterSelection::Named(adapters[i].clone()));
        i = i + 1;
    }
    options
}

/// Given a saved preference, find the matching adapter selection: the first
/// adapter whose lowercased name contains the lowercased preferred name and
/// whose backend is the preferred one; `Auto` when there is no preference or
/// no such adapter.
pub fn resolve_selection(preferred: Option<&GpuAdapter>, adapters: &[GpuAdapter]) -> (out: GpuAdapterSelection)
    ensures
        match preferred {
            None => out is Auto,
            Some(pref) => match out {
                GpuAdapterSelection::Auto => forall|i: int| 0 <= i < adapters@.len() ==> !adapter_matches(#[trigger] adapters@[i], *pref),
                GpuAdapterSelection::Named(a) => exists|i: int|
                    0 <= i < adapters@.len() && a == adapters@[i] && adapter_matches(#[trigger] adapters@[i], *pref)
                        && forall|k: int| 0 <= k < i ==> !adapter_matches(#[trigger] adapters@[k], *pref),
            },
        },
{
    let pref = match preferred {
        None => return GpuAdapterSelection::Auto,
        Some(p) => p,
    };
    let pref_lower = to_lowercase(pref.name.as_str());
    let mut i: usize = 0;
    while i < adapters.len()
        invariant
            i <= adapters@.len(),
            preferred == Some(pref),
            pref_lower@ == lowercase_of(pref.name@),
            forall|k: int| 0 <= k < i ==> !adapter_matches(#[trigger] adapters@[k], *pref),
        decreases adapters@.len() - i,
    {
        let a = &adapters[i];
        let name_lower = to_lowercase(a.name.as_str());
        let contains = bytes_contain(name_lower.as_str().as_bytes(), pref_lower.as_str().as_bytes());
        assert(contains == name_matches(a.name@, pref.name@));
        if contains && a.backend == pref.backend {
            let chosen = a.clone();
            assert(adapter_matches(adapters@[i as int], *pref) && chosen == adapters@[i as int]);
            let out = GpuAdapterSelection::Named(chosen);
            return out;
        }
        i = i + 1;
    }
    GpuAdapterSelection::Auto
}

} // verus!
