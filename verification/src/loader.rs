//! The asset-decoder capability, file-extension extraction, and the registry
//! that routes a requested path to the one handler claiming its extension.

use vstd::prelude::*;
use vstd::string::StringExecFns;
use crate::error::AssetLoadError;
use crate::error::LoadErrorModel;
use crate::storage_provider::AssetStorage;

verus! {

/// Relates a decoder's executable result to its model: a decoded asset must
/// view as the modelled value, an error must view as the modelled error.
pub open spec fn decode_matches<TAsset: View>(
    m: Result<TAsset::V, LoadErrorModel>,
    r: &Result<TAsset, AssetLoadError>,
) -> bool {
    match r {
        Ok(asset) => m == Ok::<TAsset::V, LoadErrorModel>(asset@),
        Err(e) => m == Err::<TAsset::V, LoadErrorModel>(e@),
    }
}

/// A decoder from raw bytes to one typed asset.
///
/// Decoding is synchronous, does no I/O, and is a pure function of the
/// originating path and the bytes: the result is pinned to `spec_decode`,
/// which depends on nothing else.
pub trait AssetLoader<TAsset: View> {
    /// The model of this decoder: what `(path, bytes)` decodes to.
    spec fn spec_decode(&self, path: Seq<char>, bytes: Seq<u8>) -> Result<
        TAsset::V,
        LoadErrorModel,
    >;

    /// The file extensions this decoder claims, case-sensitive.
    spec fn spec_extensions(&self) -> Seq<Seq<char>>;

    /// Decode the found bytes into a typed asset, or report a decode error.
    fn from_storage(&self, asset_path: &str, storage: AssetStorage<'_>) -> (r: Result<
        TAsset,
        AssetLoadError,
    >)
        ensures
            decode_matches::<TAsset>(self.spec_decode(asset_path@, storage@), &r),
    ;

    /// The claimed extensions, as owned strings.
    fn extensions(&self) -> (r: Vec<String>)
        ensures
            r@.map_values(|s: String| s@) == self.spec_extensions(),
    ;
}

/// Decoding is a pure function: any two results that a decoder's contract
/// admits for the same `(path, bytes)` input agree — both succeed with equal
/// asset values, or both fail with the same error.
pub proof fn lemma_decode_deterministic<TAsset: View>(
    m: Result<TAsset::V, LoadErrorModel>,
    r1: &Result<TAsset, AssetLoadError>,
    r2: &Result<TAsset, AssetLoadError>,
)
    requires
        decode_matches::<TAsset>(m, r1),
        decode_matches::<TAsset>(m, r2),
    ensures
        r1 is Ok <==> r2 is Ok,
        r1 is Ok ==> r1->Ok_0@ == r2->Ok_0@,
        r1 is Err ==> r1->Err_0@ == r2->Err_0@,
{
}

/// The extension of a path: the characters after the last `.` of its final
/// component, or nothing if that component has no dot.
pub open spec fn ext_of(path: Seq<char>) -> Option<Seq<char>>
    decreases path.len(),
{
    if path.len() == 0 {
        None
    } else if path.last() == '.' {
        Some(Seq::<char>::empty())
    } else if path.last() == '/' {
        None
    } else {
        match ext_of(path.drop_last()) {
            Some(e) => Some(e.push(path.last())),
            None => None,
        }
    }
}

/// Extending a path by characters that are neither `.` nor `/` extends its
/// extension by the same characters, and creates none.
proof fn lemma_ext_of_clean_suffix(path: Seq<char>, i: int)
    requires
        0 <= i <= path.len(),
        forall|j: int| i <= j < path.len() ==> path[j] != '.' && path[j] != '/',
    ensures
        ext_of(path) == match ext_of(path.take(i)) {
            Some(e) => Some(e + path.skip(i)),
            None => None::<Seq<char>>,
        },
    decreases path.len() - i,
{
    if i == path.len() {
        assert(path.take(i) =~= path);
        match ext_of(path) {
            Some(e) => {
                assert(e + path.skip(i) =~= e);
            },
            None => {},
        }
    } else {
        lemma_ext_of_clean_suffix(path, i + 1);
        assert(path.take(i + 1).last() == path[i]);
        assert(path.take(i + 1).drop_last() =~= path.take(i));
        match ext_of(path.take(i)) {
            Some(e) => {
                assert(e.push(path[i]) + path.skip(i + 1) =~= e + path.skip(i));
            },
            None => {},
        }
    }
}

/// The extension of the requested path, owned, or `None` where the final
/// component has no dot.
pub fn path_extension(path: &str) -> (r: Option<String>)
    ensures
        match r {
            Some(e) => ext_of(path@) == Some(e@),
            None => ext_of(path@) is None,
        },
{
    let n = path.unicode_len();
    let mut i = n;
    while i > 0
        invariant
            i <= n,
            n == path@.len(),
            forall|j: int| i <= j < n ==> path@[j] != '.' && path@[j] != '/',
        decreases i,
    {
        let c = path.get_char(i - 1);
        if c == '.' {
            proof {
                lemma_ext_of_clean_suffix(path@, i as int);
                assert(path@.take(i as int).last() == path@[i - 1]);
                assert(Seq::<char>::empty() + path@.skip(i as int) =~= path@.subrange(
                    i as int,
                    n as int,
                ));
            }
            let e = path.substring_char(i, n);
            return Some(String::from_str(e));
        }
        if c == '/' {
            proof {
                lemma_ext_of_clean_suffix(path@, i as int);
                assert(path@.take(i as int).last() == path@[i - 1]);
            }
            return None;
        }
        i -= 1;
    }
    proof {
        lemma_ext_of_clean_suffix(path@, 0);
        assert(path@.take(0).len() == 0);
    }
    None
}

/// First handler index claiming `ext` in a claim table, if any.
pub open spec fn claim_lookup(claims: Seq<(Seq<char>, usize)>, ext: Seq<char>) -> Option<usize>
    decreases claims.len(),
{
    if claims.len() == 0 {
        None
    } else if claims[0].0 == ext {
        Some(claims[0].1)
    } else {
        claim_lookup(claims.drop_first(), ext)
    }
}

/// Where a routed request goes: to the handler claiming the path's
/// extension, and nowhere when the path has no extension or nobody claims it.
pub open spec fn spec_route(claims: Seq<(Seq<char>, usize)>, path: Seq<char>) -> Option<usize> {
    match ext_of(path) {
        Some(e) => claim_lookup(claims, e),
        None => None::<usize>,
    }
}

/// A registry of load handlers keyed by the file extensions they claim.
///
/// Handlers are identified by the dense indices this registry assigns at
/// registration time; each extension is claimed by at most one handler.
pub struct HandlerRegistry {
    claims: Vec<(String, usize)>,
    n_handlers: usize,
}

impl View for HandlerRegistry {
    type V = Seq<(Seq<char>, usize)>;

    closed spec fn view(&self) -> Seq<(Seq<char>, usize)> {
        self.claims@.map_values(|c: (String, usize)| (c.0@, c.1))
    }
}

impl HandlerRegistry {
    /// How many handlers have been registered.
    pub closed spec fn spec_handler_count(&self) -> usize {
        self.n_handlers
    }

    /// Each extension is claimed at most once, and every claim names a
    /// registered handler.
    pub open spec fn wf(&self) -> bool {
        &&& forall|i: int, j: int| 0 <= i < j < self@.len() ==> self@[i].0 != self@[j].0
        &&& forall|i: int| 0 <= i < self@.len() ==> (#[trigger] self@[i]).1 < self.spec_handler_count()
    }

    /// An empty registry: nothing is routed anywhere.
    pub fn new() -> (r: Self)
        ensures
            r@ =~= Seq::<(Seq<char>, usize)>::empty(),
            r.spec_handler_count() == 0,
            r.wf(),
    {
        HandlerRegistry { claims: Vec::new(), n_handlers: 0 }
    }

    /// How many handlers have been registered.
    pub fn handler_count(&self) -> (n: usize)
        ensures
            n == self.spec_handler_count(),
    {
        self.n_handlers
    }

    /// Register the next handler under the given extensions and return the
    /// index the registry assigns to it. Every given extension must be new
    /// to the registry — an extension never changes hands.
    pub fn register(&mut self, extensions: &Vec<String>) -> (idx: usize)
        requires
            old(self).wf(),
            old(self).spec_handler_count() < usize::MAX,
            forall|k: int|
                0 <= k < extensions@.len() ==> claim_lookup(old(self)@, extensions@[k]@) is None,
            forall|k: int, l: int|
                0 <= k < l < extensions@.len() ==> extensions@[k]@ != extensions@[l]@,
        ensures
            final(self).wf(),
            idx == old(self).spec_handler_count(),
            final(self).spec_handler_count() == idx + 1,
            final(self)@.len() == old(self)@.len() + extensions@.len(),
            forall|k: int| 0 <= k < old(self)@.len() ==> final(self)@[k] == old(self)@[k],
            forall|k: int|
                0 <= k < extensions@.len() ==> final(self)@[old(self)@.len() + k] == (
                extensions@[k]@,
                idx,
            ),
    {
        let idx = self.n_handlers;
        let ghost base = self@;
        let mut k: usize = 0;
        while k < extensions.len()
            invariant
                k <= extensions@.len(),
                idx == old(self).spec_handler_count(),
                self.spec_handler_count() == idx,
                self@.len() == base.len() + k,
                forall|l: int| 0 <= l < base.len() ==> self@[l] == base[l],
                forall|l: int| 0 <= l < k ==> self@[base.len() + l] == (extensions@[l]@, idx),
            decreases extensions@.len() - k,
        {
            self.claims.push((extensions[k].clone(), idx));
            k += 1;
        }
        self.n_handlers = idx + 1;
        proof {
            let exts = extensions@.map_values(|s: String| s@);
            lemma_unclaimed_is_absent_everywhere(base, exts);
            let v = self@;
            assert forall|i: int, j: int| 0 <= i < j < v.len() implies v[i].0 != v[j].0 by {
                if j < base.len() {
                    assert(v[i] == base[i]);
                    assert(v[j] == base[j]);
                } else if i < base.len() {
                    assert(v[i] == base[i]);
                    assert(v[j] == (extensions@[j - base.len()]@, idx));
                    assert(exts[j - base.len()] == extensions@[j - base.len()]@);
                    assert(base[i].0 != exts[j - base.len()]);
                } else {
                    assert(v[i] == (extensions@[i - base.len()]@, idx));
                    assert(v[j] == (extensions@[j - base.len()]@, idx));
                }
            }
            assert forall|i: int| 0 <= i < v.len() implies (#[trigger] v[i]).1
                < self.spec_handler_count() by {
                if i < base.len() {
                    assert(v[i] == base[i]);
                    assert(base[i].1 < idx);
                } else {
                    assert(v[i] == (extensions@[i - base.len()]@, idx));
                }
            }
        }
        idx
    }

    /// Route a requested path to the handler claiming its extension.
    pub fn route(&self, path: &str) -> (r: Option<usize>)
        ensures
            r == spec_route(self@, path@),
    {
        let ext = match path_extension(path) {
            Some(e) => e,
            None => {
                return None;
            },
        };
        let n = self.claims.len();
        let mut i: usize = 0;
        proof {
            assert(self@.skip(0) =~= self@);
        }
        while i < n
            invariant
                n == self.claims.len(),
                ext_of(path@) == Some(ext@),
                claim_lookup(self@, ext@) == claim_lookup(self@.skip(i as int), ext@),
                i <= n,
            decreases n - i,
        {
            proof {
                assert(self@.skip(i as int)[0] == self@[i as int]);
                assert(self@.skip(i as int).drop_first() =~= self@.skip(i as int + 1));
            }
            if self.claims[i].0 == ext {
                return Some(self.claims[i].1);
            }
            i += 1;
        }
        proof {
            assert(self@.skip(n as int) =~= Seq::<(Seq<char>, usize)>::empty());
        }
        None
    }
}

/// An extension that `claim_lookup` does not find is claimed by no entry.
proof fn lemma_claim_lookup_none(claims: Seq<(Seq<char>, usize)>, ext: Seq<char>)
    requires
        claim_lookup(claims, ext) is None,
    ensures
        forall|i: int| 0 <= i < claims.len() ==> (#[trigger] claims[i]).0 != ext,
    decreases claims.len(),
{
    if claims.len() > 0 {
        lemma_claim_lookup_none(claims.drop_first(), ext);
        assert(forall|i: int|
            1 <= i < claims.len() ==> (#[trigger] claims[i]) == claims.drop_first()[i - 1]);
    }
}

/// Extensions that lookup does not find appear in no claim entry.
proof fn lemma_unclaimed_is_absent_everywhere(claims: Seq<(Seq<char>, usize)>, exts: Seq<Seq<char>>)
    requires
        forall|k: int| 0 <= k < exts.len() ==> claim_lookup(claims, #[trigger] exts[k]) is None,
    ensures
        forall|i: int, k: int|
            0 <= i < claims.len() && 0 <= k < exts.len() ==> (#[trigger] claims[i]).0 != #[trigger] exts[k],
{
    assert forall|i: int, k: int|
        0 <= i < claims.len() && 0 <= k < exts.len() implies (#[trigger] claims[i]).0
        != #[trigger] exts[k] by {
        lemma_claim_lookup_none(claims, exts[k]);
    }
}

} // verus!
