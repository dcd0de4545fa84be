//! Bitmaps that a picture may sample, and the set of them that a scan reads.

use vstd::prelude::*;

verus! {

/// A decoded bitmap: one brightness value per pixel, row by row from the top,
/// each the bit pattern of a single-precision value.
pub struct ActualPicture {
    pub brightness: Vec<u32>,
    pub w: u16,
    pub h: u16,
    pub name: String,
}

impl ActualPicture {
    /// The bitmap has at least one pixel and a brightness for each.
    pub open spec fn wf(&self) -> bool {
        &&& self.w >= 1
        &&& self.h >= 1
        &&& self.brightness@.len() == self.w * self.h
    }

    /// The brightness at column `col` of row `row`.
    pub open spec fn texel_at(&self, col: int, row: int) -> u32 {
        self.brightness@[row * self.w + col]
    }

    /// A bitmap of `w` by `h` pixels, or `None` where a side is zero or
    /// `brightness` does not hold exactly one value per pixel.
    pub fn new(name: String, w: u16, h: u16, brightness: Vec<u32>) -> (r: Option<ActualPicture>)
        ensures
            r is Some <==> w >= 1 && h >= 1 && brightness@.len() == w * h,
            r is Some ==> r->0.wf() && r->0.name == name && r->0.w == w && r->0.h == h
                && r->0.brightness == brightness,
    {
        if w == 0 || h == 0 {
            return None;
        }
        assert(w * h <= 65535 * 65535) by (nonlinear_arith)
            requires
                w <= 65535,
                h <= 65535,
        ;
        let area: usize = (w as usize) * (h as usize);
        if brightness.len() != area {
            return None;
        }
        Some(ActualPicture { brightness, w, h, name })
    }

    /// Reads one pixel.
    pub fn texel(&self, col: usize, row: usize) -> (r: u32)
        requires
            self.wf(),
            col < self.w,
            row < self.h,
        ensures
            r == self.texel_at(col as int, row as int),
    {
        proof {
            let (c, r, w, h) = (col as int, row as int, self.w as int, self.h as int);
            assert(0 <= r * w && r * w + c < w * h && w * h <= 65535 * 65535) by (nonlinear_arith)
                requires
                    0 <= c < w <= 65535,
                    0 <= r < h <= 65535,
            ;
        }
        self.brightness[row * (self.w as usize) + col]
    }
}

/// The place that a raw index names on an axis of `extent` pixels: `raw` is
/// read as a signed 32-bit integer, and what falls off either end is moved to
/// the nearest edge.
pub open spec fn edge_index(raw: u32, extent: u16) -> int {
    if raw >= 0x8000_0000 {
        0
    } else if raw >= extent {
        extent - 1
    } else {
        raw as int
    }
}

/// Computes `edge_index`.
pub fn clamp_to_edge(raw: u32, extent: u16) -> (r: usize)
    requires
        extent >= 1,
    ensures
        r == edge_index(raw, extent),
        r < extent,
{
    if raw >= 0x8000_0000 {
        0
    } else if raw >= extent as u32 {
        (extent - 1) as usize
    } else {
        raw as usize
    }
}

/// Where the first bitmap called `name` stands in `items`.
pub open spec fn position(items: Seq<ActualPicture>, name: Seq<char>) -> Option<int>
    decreases items.len(),
{
    if items.len() == 0 {
        None
    } else {
        match position(items.drop_last(), name) {
            Some(k) => Some(k),
            None => if items.last().name@ == name {
                Some(items.len() - 1)
            } else {
                None
            },
        }
    }
}

/// `position` finds the first match, and finds none only where there is none.
pub proof fn lemma_position(items: Seq<ActualPicture>, name: Seq<char>)
    ensures
        match position(items, name) {
            Some(k) => 0 <= k < items.len() && items[k].name@ == name && forall|j: int|
                0 <= j < k ==> #[trigger] items[j].name@ != name,
            None => forall|j: int| 0 <= j < items.len() ==> #[trigger] items[j].name@ != name,
        },
    decreases items.len(),
{
    if items.len() > 0 {
        lemma_position(items.drop_last(), name);
        match position(items.drop_last(), name) {
            Some(k) => {
                assert(items.drop_last()[k] == items[k]);
                assert forall|j: int| 0 <= j < k implies #[trigger] items[j].name@ != name by {
                    assert(items.drop_last()[j] == items[j]);
                }
            },
            None => {
                assert forall|j: int| 0 <= j < items.len() - 1 implies #[trigger] items[j].name@
                    != name by {
                    assert(items.drop_last()[j] == items[j]);
                }
            },
        }
    }
}

/// A match at `k` with none before it is what `position` returns.
pub proof fn lemma_position_is(items: Seq<ActualPicture>, name: Seq<char>, k: int)
    requires
        0 <= k < items.len(),
        items[k].name@ == name,
        forall|j: int| 0 <= j < k ==> #[trigger] items[j].name@ != name,
    ensures
        position(items, name) == Some(k),
{
    lemma_position(items, name);
}

/// The names of the bitmaps in `pics`, as a test on names.
pub open spec fn known(pics: Pictures) -> spec_fn(Seq<char>) -> bool {
    |name: Seq<char>| pics.has(name)
}

/// The bitmaps that a scan may sample, each found by its name.
pub struct Pictures {
    pub items: Vec<ActualPicture>,
}

impl Pictures {
    /// Every bitmap is well formed and no two share a name.
    pub open spec fn wf(&self) -> bool {
        &&& forall|i: int| 0 <= i < self.items@.len() ==> #[trigger] self.items@[i].wf()
        &&& forall|i: int, j: int|
            0 <= i < j < self.items@.len() ==> #[trigger] self.items@[i].name@
                != #[trigger] self.items@[j].name@
    }

    /// Whether a bitmap called `name` is in the set.
    pub open spec fn has(&self, name: Seq<char>) -> bool {
        position(self.items@, name) is Some
    }

    /// The bitmap called `name`.
    pub open spec fn named(&self, name: Seq<char>) -> ActualPicture
        recommends
            self.has(name),
    {
        self.items@[position(self.items@, name)->0]
    }

    /// The empty set.
    pub fn new() -> (r: Pictures)
        ensures
            r.wf(),
            r.items@.len() == 0,
            forall|name: Seq<char>| !r.has(name),
    {
        Pictures { items: Vec::new() }
    }

    /// How many bitmaps the set holds.
    pub fn len(&self) -> (r: usize)
        ensures
            r == self.items@.len(),
    {
        self.items.len()
    }

    /// Tells whether every bitmap is well formed and no two share a name.
    pub fn well_formed(&self) -> (r: bool)
        ensures
            r == self.wf(),
    {
        let n: usize = self.items.len();
        let mut i: usize = 0;
        while i < n
            invariant
                i <= n,
                n == self.items@.len(),
                forall|k: int| 0 <= k < i ==> #[trigger] self.items@[k].wf(),
                forall|k: int, j: int|
                    0 <= k < j < n && k < i ==> #[trigger] self.items@[k].name@
                        != #[trigger] self.items@[j].name@,
            decreases n - i,
        {
            let item = &self.items[i];
            if item.w == 0 || item.h == 0 {
                assert(!self.items@[i as int].wf());
                return false;
            }
            assert(item.w * item.h <= 65535 * 65535) by (nonlinear_arith)
                requires
                    item.w <= 65535,
                    item.h <= 65535,
            ;
            if item.brightness.len() != (item.w as usize) * (item.h as usize) {
                assert(!self.items@[i as int].wf());
                return false;
            }
            let mut j: usize = i + 1;
            while j < n
                invariant
                    i < j <= n,
                    n == self.items@.len(),
                    forall|m: int| i < m < j ==> self.items@[i as int].name@
                        != #[trigger] self.items@[m].name@,
                decreases n - j,
            {
                if self.items[i].name == self.items[j].name {
                    return false;
                }
                j += 1;
            }
            i += 1;
        }
        true
    }

    /// Looks a bitmap up by name.
    pub fn find(&self, name: &String) -> (r: Option<usize>)
        ensures
            r is Some <==> self.has(name@),
            r is Some ==> position(self.items@, name@) == Some(r->0 as int) && r->0
                < self.items@.len() && self.items@[r->0 as int] == self.named(name@),
    {
        let mut i: usize = 0;
        while i < self.items.len()
            invariant
                i <= self.items@.len(),
                forall|j: int| 0 <= j < i ==> #[trigger] self.items@[j].name@ != name@,
            decreases self.items@.len() - i,
        {
            if self.items[i].name == *name {
                proof {
                    lemma_position_is(self.items@, name@, i as int);
                }
                return Some(i);
            }
            i += 1;
        }
        proof {
            lemma_position(self.items@, name@);
        }
        None
    }

    /// Puts `picture` into the set, in place of the bitmap of the same name
    /// if there is one.
    pub fn insert(&mut self, picture: ActualPicture)
        requires
            old(self).wf(),
            picture.wf(),
        ensures
            final(self).wf(),
            final(self).has(picture.name@),
            final(self).named(picture.name@) == picture,
            forall|name: Seq<char>|
                name != picture.name@ ==> final(self).has(name) == old(self).has(name),
            forall|name: Seq<char>|
                name != picture.name@ && old(self).has(name) ==> final(self).named(name) == old(
                    self,
                ).named(name),
    {
        let ghost before = self.items@;
        let ghost key = picture.name@;
        let found = self.find(&picture.name);
        proof {
            lemma_position(before, key);
        }
        match found {
            Some(k) => {
                self.items[k] = picture;
                proof {
                    let after = self.items@;
                    assert(after =~= before.update(k as int, picture));
                    lemma_position_is(after, key, k as int);
                    assert forall|name: Seq<char>| name != key implies position(after, name)
                        == position(before, name) && (position(before, name) is Some
                        ==> after[position(before, name)->0] == before[position(before, name)->0]) by {
                        lemma_position(before, name);
                        match position(before, name) {
                            Some(p) => {
                                lemma_position_is(after, name, p);
                            },
                            None => {
                                lemma_position(after, name);
                            },
                        }
                    }
                }
            },
            None => {
                self.items.push(picture);
                proof {
                    let after = self.items@;
                    assert(after.drop_last() =~= before);
                    assert forall|name: Seq<char>| name != key implies position(after, name)
                        == position(before, name) && (position(before, name) is Some
                        ==> after[position(before, name)->0] == before[position(before, name)->0]) by {
                        lemma_position(before, name);
                    }
                }
            },
        }
    }
}

} // verus!
