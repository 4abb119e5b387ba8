//! Registries for styles, fonts and images.
//!
//! Each registry is an owned name-to-value mapping, populated once before
//! any page renders and read-only afterwards. Contracts speak of a registry
//! through its map view. The driver keeps the actual font and image payloads;
//! the library holds what its decisions read: style values, the set of
//! registered font keys, and each image's intrinsic pixel size.

use vstd::prelude::*;

use crate::style::Style;
use crate::strutil::string_eq_str;

verus! {

/// Upper bound on an image's intrinsic extent in pixels.
pub const IMAGE_PX_LIMIT: i64 = 30_000;

/// The mapping a key-value list denotes; a later pair with a repeated key
/// would win, though well-formed lists have unique keys.
pub open spec fn kv_map<V>(s: Seq<(String, V)>) -> Map<Seq<char>, V>
    decreases s.len(),
{
    if s.len() == 0 {
        Map::empty()
    } else {
        kv_map(s.drop_last()).insert(s.last().0@, s.last().1)
    }
}

/// No two pairs share a key.
pub open spec fn kv_unique<V>(s: Seq<(String, V)>) -> bool {
    forall|i: int, j: int| 0 <= i < j < s.len() ==> s[i].0@ != s[j].0@
}

/// A key present in the list maps, in the map view, to that pair's value.
pub proof fn lemma_kv_present<V>(s: Seq<(String, V)>, i: int)
    requires
        kv_unique(s),
        0 <= i < s.len(),
    ensures
        kv_map(s).contains_key(s[i].0@),
        kv_map(s)[s[i].0@] == s[i].1,
    decreases s.len(),
{
    if i + 1 < s.len() {
        assert(s.drop_last()[i] == s[i]);
        lemma_kv_present(s.drop_last(), i);
    }
}

/// A key no pair carries is absent from the map view.
pub proof fn lemma_kv_absent<V>(s: Seq<(String, V)>, k: Seq<char>)
    requires
        forall|i: int| 0 <= i < s.len() ==> #[trigger] s[i].0@ != k,
    ensures
        !kv_map(s).contains_key(k),
    decreases s.len(),
{
    if s.len() > 0 {
        assert(forall|i: int|
            0 <= i < s.drop_last().len() ==> #[trigger] s.drop_last()[i].0@ != k);
        lemma_kv_absent(s.drop_last(), k);
    }
}

/// Replacing the pair at one position with one of the same key view is, in
/// the map view, an insert at that key.
pub proof fn lemma_kv_update<V>(s: Seq<(String, V)>, i: int, key: String, v: V)
    requires
        kv_unique(s),
        0 <= i < s.len(),
        key@ == s[i].0@,
    ensures
        kv_map(s.update(i, (key, v))) =~= kv_map(s).insert(key@, v),
    decreases s.len(),
{
    let t = s.update(i, (key, v));
    if i == s.len() - 1 {
        assert(t.drop_last() =~= s.drop_last());
    } else {
        assert(t.drop_last() =~= s.drop_last().update(i, (key, v)));
        assert(s.drop_last()[i] == s[i]);
        lemma_kv_update(s.drop_last(), i, key, v);
        assert(s[i].0@ != s.last().0@);
    }
}

/// Appending a pair is, in the map view, an insert.
pub proof fn lemma_kv_push<V>(s: Seq<(String, V)>, key: String, v: V)
    ensures
        kv_map(s.push((key, v))) =~= kv_map(s).insert(key@, v),
{
    assert(s.push((key, v)).drop_last() =~= s);
}

/// Named style rules.
#[derive(Debug)]
pub struct StyleAsset {
    pub styles: Vec<(String, Style)>,
}

impl View for StyleAsset {
    type V = Map<Seq<char>, Style>;

    open spec fn view(&self) -> Map<Seq<char>, Style> {
        kv_map(self.styles@)
    }
}

impl StyleAsset {
    pub open spec fn wf(&self) -> bool {
        &&& kv_unique(self.styles@)
        &&& forall|k: Seq<char>|
            self@.contains_key(k) ==> crate::style::style_bounded(#[trigger] self@[k])
    }

    pub fn new() -> (r: StyleAsset)
        ensures
            r.wf(),
            r@ =~= Map::<Seq<char>, Style>::empty(),
    {
        StyleAsset { styles: Vec::new() }
    }

    /// Register a style under a key; a repeated key replaces the old value.
    pub fn add(&mut self, key: &str, style: Style)
        requires
            old(self).wf(),
            crate::style::style_bounded(style),
        ensures
            final(self).wf(),
            final(self)@ =~= old(self)@.insert(key@, style),
    {
        let n = self.styles.len();
        let mut i: usize = 0;
        while i < n
            invariant
                crate::style::style_bounded(style),
                self.styles@ == old(self).styles@,
                old(self).wf(),
                n == self.styles@.len(),
                i <= n,
                forall|j: int| 0 <= j < i ==> #[trigger] self.styles@[j].0@ != key@,
            decreases n - i,
        {
            if string_eq_str(&self.styles[i].0, key) {
                let ghost s0 = self.styles@;
                self.styles.remove(i);
                self.styles.insert(i, (key.to_owned(), style));
                proof {
                    assert(self.styles@ =~= s0.update(
                        i as int,
                        (self.styles@[i as int].0, style),
                    ));
                    lemma_kv_update(s0, i as int, self.styles@[i as int].0, style);
                    assert(forall|j: int|
                        0 <= j < s0.len() ==> #[trigger] self.styles@[j].0@ == s0[j].0@);
                    assert forall|k: Seq<char>|
                        self@.contains_key(k) implies crate::style::style_bounded(
                        #[trigger] self@[k],
                    ) by {
                        if k != key@ {
                            assert(old(self)@.contains_key(k));
                            assert(self@[k] == old(self)@[k]);
                        } else {
                            assert(self@[k] == style);
                        }
                    }
                }
                return;
            }
            i += 1;
        }
        let ghost s0 = self.styles@;
        self.styles.push((key.to_owned(), style));
        proof {
            lemma_kv_push(s0, self.styles@.last().0, self.styles@.last().1);
            assert(forall|j: int|
                0 <= j < s0.len() ==> #[trigger] self.styles@[j].0@ == s0[j].0@);
            assert forall|k: Seq<char>|
                self@.contains_key(k) implies crate::style::style_bounded(
                #[trigger] self@[k],
            ) by {
                if k != key@ {
                    assert(old(self)@.contains_key(k));
                    assert(self@[k] == old(self)@[k]);
                } else {
                    assert(self@[k] == style);
                }
            }
        }
    }

    /// Look a style up by key; `None` on a miss.
    pub fn get(&self, key: &str) -> (r: Option<&Style>)
        requires
            self.wf(),
        ensures
            match r {
                Option::Some(s) => self@.contains_key(key@) && *s == self@[key@]
                    && crate::style::style_bounded(*s),
                Option::None => !self@.contains_key(key@),
            },
    {
        let n = self.styles.len();
        let mut i: usize = 0;
        while i < n
            invariant
                self.wf(),
                n == self.styles@.len(),
                i <= n,
                forall|j: int| 0 <= j < i ==> #[trigger] self.styles@[j].0@ != key@,
            decreases n - i,
        {
            if string_eq_str(&self.styles[i].0, key) {
                proof {
                    lemma_kv_present(self.styles@, i as int);
                }
                return Option::Some(&self.styles[i].1);
            }
            i += 1;
        }
        proof {
            lemma_kv_absent(self.styles@, key@);
        }
        Option::None
    }
}

/// The set of registered font keys. The compiled font payloads live with
/// the driver; the library only decides whether a family is registered.
#[derive(Debug)]
pub struct FontAsset {
    pub fonts: Vec<String>,
}

impl FontAsset {
    /// Whether `k` is a registered family key.
    pub open spec fn spec_has(&self, k: Seq<char>) -> bool {
        exists|i: int| 0 <= i < self.fonts@.len() && #[trigger] self.fonts@[i]@ == k
    }

    pub fn new() -> (r: FontAsset)
        ensures
            forall|k: Seq<char>| !r.spec_has(k),
    {
        FontAsset { fonts: Vec::new() }
    }

    /// Register a family key.
    pub fn add(&mut self, key: &str)
        ensures
            forall|k: Seq<char>|
                #[trigger] final(self).spec_has(k) <==> (old(self).spec_has(k) || k == key@),
    {
        self.fonts.push(key.to_owned());
        proof {
            let s0 = old(self).fonts@;
            assert forall|k: Seq<char>|
                #[trigger] self.spec_has(k) <==> (old(self).spec_has(k) || k == key@) by {
                if self.spec_has(k) {
                    let i = choose|i: int|
                        0 <= i < self.fonts@.len() && #[trigger] self.fonts@[i]@ == k;
                    if i < s0.len() {
                        assert(s0[i]@ == k);
                    }
                }
                if old(self).spec_has(k) {
                    let i = choose|i: int| 0 <= i < s0.len() && #[trigger] s0[i]@ == k;
                    assert(self.fonts@[i]@ == k);
                }
                if k == key@ {
                    assert(self.fonts@[s0.len() as int]@ == k);
                }
            }
        }
    }

    /// Whether a family key is registered.
    pub fn contains(&self, key: &str) -> (r: bool)
        ensures
            r == self.spec_has(key@),
    {
        let n = self.fonts.len();
        let mut i: usize = 0;
        while i < n
            invariant
                n == self.fonts@.len(),
                i <= n,
                forall|j: int| 0 <= j < i ==> #[trigger] self.fonts@[j]@ != key@,
            decreases n - i,
        {
            if string_eq_str(&self.fonts[i], key) {
                return true;
            }
            i += 1;
        }
        false
    }
}

/// An image's intrinsic pixel extent; both axes are positive and bounded.
#[derive(Debug, Clone, Copy, PartialEq, Eq, Structural)]
pub struct ImageInfo {
    pub width_px: i64,
    pub height_px: i64,
}

impl ImageInfo {
    pub open spec fn wf(self) -> bool {
        &&& 0 < self.width_px <= IMAGE_PX_LIMIT
        &&& 0 < self.height_px <= IMAGE_PX_LIMIT
    }
}

/// Registered images, by key, with their intrinsic sizes. The decoded
/// pixel data lives with the driver.
#[derive(Debug)]
pub struct ImageAsset {
    pub images: Vec<(String, ImageInfo)>,
}

impl View for ImageAsset {
    type V = Map<Seq<char>, ImageInfo>;

    open spec fn view(&self) -> Map<Seq<char>, ImageInfo> {
        kv_map(self.images@)
    }
}

impl ImageAsset {
    pub open spec fn wf(&self) -> bool {
        &&& kv_unique(self.images@)
        &&& forall|i: int| 0 <= i < self.images@.len() ==> (#[trigger] self.images@[i].1).wf()
    }

    pub fn new() -> (r: ImageAsset)
        ensures
            r.wf(),
            r@ =~= Map::<Seq<char>, ImageInfo>::empty(),
    {
        ImageAsset { images: Vec::new() }
    }

    /// Register an image's intrinsic size under a key; a repeated key
    /// replaces the old value.
    pub fn add(&mut self, key: &str, info: ImageInfo)
        requires
            old(self).wf(),
            info.wf(),
        ensures
            final(self).wf(),
            final(self)@ =~= old(self)@.insert(key@, info),
    {
        let n = self.images.len();
        let mut i: usize = 0;
        while i < n
            invariant
                self.images@ == old(self).images@,
                old(self).wf(),
                info.wf(),
                n == self.images@.len(),
                i <= n,
                forall|j: int| 0 <= j < i ==> #[trigger] self.images@[j].0@ != key@,
            decreases n - i,
        {
            if string_eq_str(&self.images[i].0, key) {
                let ghost s0 = self.images@;
                self.images.remove(i);
                self.images.insert(i, (key.to_owned(), info));
                proof {
                    assert(self.images@ =~= s0.update(
                        i as int,
                        (self.images@[i as int].0, info),
                    ));
                    lemma_kv_update(s0, i as int, self.images@[i as int].0, info);
                    assert(forall|j: int|
                        0 <= j < s0.len() ==> #[trigger] self.images@[j].0@ == s0[j].0@);
                }
                return;
            }
            i += 1;
        }
        let ghost s0 = self.images@;
        self.images.push((key.to_owned(), info));
        proof {
            lemma_kv_push(s0, self.images@.last().0, self.images@.last().1);
            assert(forall|j: int|
                0 <= j < s0.len() ==> #[trigger] self.images@[j].0@ == s0[j].0@);
        }
    }

    /// Look an image's size up by key; `None` on a miss.
    pub fn get(&self, key: &str) -> (r: Option<&ImageInfo>)
        requires
            self.wf(),
        ensures
            match r {
                Option::Some(info) => self@.contains_key(key@) && *info == self@[key@]
                    && info.wf(),
                Option::None => !self@.contains_key(key@),
            },
    {
        let n = self.images.len();
        let mut i: usize = 0;
        while i < n
            invariant
                self.wf(),
                n == self.images@.len(),
                i <= n,
                forall|j: int| 0 <= j < i ==> #[trigger] self.images@[j].0@ != key@,
            decreases n - i,
        {
            if string_eq_str(&self.images[i].0, key) {
                proof {
                    lemma_kv_present(self.images@, i as int);
                }
                return Option::Some(&self.images[i].1);
            }
            i += 1;
        }
        proof {
            lemma_kv_absent(self.images@, key@);
        }
        Option::None
    }
}

/// All three registries, as the pipeline consumes them.
#[derive(Debug)]
pub struct Assets {
    pub fonts: FontAsset,
    pub images: ImageAsset,
    pub styles: StyleAsset,
}

impl Assets {
    pub open spec fn wf(&self) -> bool {
        &&& self.images.wf()
        &&& self.styles.wf()
    }

    pub fn new() -> (r: Assets)
        ensures
            r.wf(),
            r.styles@ =~= Map::<Seq<char>, Style>::empty(),
            r.images@ =~= Map::<Seq<char>, ImageInfo>::empty(),
            forall|k: Seq<char>| !r.fonts.spec_has(k),
    {
        Assets { fonts: FontAsset::new(), images: ImageAsset::new(), styles: StyleAsset::new() }
    }
}

} // verus!
