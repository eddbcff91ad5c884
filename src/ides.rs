//! IDE products and releases, and the selection of releases from the vendors'
//! release feeds.

use vstd::prelude::*;
use vstd::string::*;
use crate::text::{
    str_eq, starts_with, has_prefix, has_suffix, ends_with, last_index_of, last_pos,
    lemma_last_pos_bounds, lemma_last_pos_split,
};

verus! {

/// The closed set of IDE products that plugins are resolved for.
#[derive(Debug, PartialEq, Eq, Hash, Clone, Copy, Structural)]
pub enum IdeProduct {
    IntelliJIdea,
    PhpStorm,
    WebStorm,
    PyCharm,
    RubyMine,
    CLion,
    GoLand,
    DataGrip,
    DataSpell,
    Rider,
    AndroidStudio,
    RustRover,
    Aqua,
    Writerside,
    Mps,
}

/// The vendor's product code of each product.
pub open spec fn spec_product_code(p: IdeProduct) -> Seq<char> {
    match p {
        IdeProduct::IntelliJIdea => "IU"@,
        IdeProduct::PhpStorm => "PS"@,
        IdeProduct::WebStorm => "WS"@,
        IdeProduct::PyCharm => "PY"@,
        IdeProduct::RubyMine => "RM"@,
        IdeProduct::CLion => "CL"@,
        IdeProduct::GoLand => "GO"@,
        IdeProduct::DataGrip => "DB"@,
        IdeProduct::DataSpell => "DS"@,
        IdeProduct::Rider => "RD"@,
        IdeProduct::AndroidStudio => "AI"@,
        IdeProduct::RustRover => "RR"@,
        IdeProduct::Aqua => "QA"@,
        IdeProduct::Writerside => "WRS"@,
        IdeProduct::Mps => "MPS"@,
    }
}

/// The short key of each product in the persisted layout.
pub open spec fn spec_nix_key(p: IdeProduct) -> Seq<char> {
    match p {
        IdeProduct::IntelliJIdea => "idea"@,
        IdeProduct::PhpStorm => "phpstorm"@,
        IdeProduct::WebStorm => "webstorm"@,
        IdeProduct::PyCharm => "pycharm"@,
        IdeProduct::RubyMine => "ruby-mine"@,
        IdeProduct::CLion => "clion"@,
        IdeProduct::GoLand => "goland"@,
        IdeProduct::DataGrip => "datagrip"@,
        IdeProduct::DataSpell => "dataspell"@,
        IdeProduct::Rider => "rider"@,
        IdeProduct::AndroidStudio => "android-studio"@,
        IdeProduct::RustRover => "rust-rover"@,
        IdeProduct::Aqua => "aqua"@,
        IdeProduct::Writerside => "writerside"@,
        IdeProduct::Mps => "mps"@,
    }
}

/// The product whose code is `s`, if any.
pub open spec fn product_with_code(s: Seq<char>) -> Option<IdeProduct> {
    if s == "IU"@ {
        Some(IdeProduct::IntelliJIdea)
    } else if s == "PS"@ {
        Some(IdeProduct::PhpStorm)
    } else if s == "WS"@ {
        Some(IdeProduct::WebStorm)
    } else if s == "PY"@ {
        Some(IdeProduct::PyCharm)
    } else if s == "RM"@ {
        Some(IdeProduct::RubyMine)
    } else if s == "CL"@ {
        Some(IdeProduct::CLion)
    } else if s == "GO"@ {
        Some(IdeProduct::GoLand)
    } else if s == "DB"@ {
        Some(IdeProduct::DataGrip)
    } else if s == "DS"@ {
        Some(IdeProduct::DataSpell)
    } else if s == "RD"@ {
        Some(IdeProduct::Rider)
    } else if s == "AI"@ {
        Some(IdeProduct::AndroidStudio)
    } else if s == "RR"@ {
        Some(IdeProduct::RustRover)
    } else if s == "QA"@ {
        Some(IdeProduct::Aqua)
    } else if s == "WRS"@ {
        Some(IdeProduct::Writerside)
    } else if s == "MPS"@ {
        Some(IdeProduct::Mps)
    } else {
        None
    }
}

/// The product whose short key is `s`, if any.
pub open spec fn product_with_nix_key(s: Seq<char>) -> Option<IdeProduct> {
    if s == "idea"@ {
        Some(IdeProduct::IntelliJIdea)
    } else if s == "phpstorm"@ {
        Some(IdeProduct::PhpStorm)
    } else if s == "webstorm"@ {
        Some(IdeProduct::WebStorm)
    } else if s == "pycharm"@ {
        Some(IdeProduct::PyCharm)
    } else if s == "ruby-mine"@ {
        Some(IdeProduct::RubyMine)
    } else if s == "clion"@ {
        Some(IdeProduct::CLion)
    } else if s == "goland"@ {
        Some(IdeProduct::GoLand)
    } else if s == "datagrip"@ {
        Some(IdeProduct::DataGrip)
    } else if s == "dataspell"@ {
        Some(IdeProduct::DataSpell)
    } else if s == "rider"@ {
        Some(IdeProduct::Rider)
    } else if s == "android-studio"@ {
        Some(IdeProduct::AndroidStudio)
    } else if s == "rust-rover"@ {
        Some(IdeProduct::RustRover)
    } else if s == "aqua"@ {
        Some(IdeProduct::Aqua)
    } else if s == "writerside"@ {
        Some(IdeProduct::Writerside)
    } else if s == "mps"@ {
        Some(IdeProduct::Mps)
    } else {
        None
    }
}

impl IdeProduct {
    /// The product that the vendor's code `code` names.
    pub fn try_from_code(code: &str) -> (r: Option<Self>)
        ensures
            r == product_with_code(code@),
    {
        if str_eq(code, "IU") {
            Some(IdeProduct::IntelliJIdea)
        } else if str_eq(code, "PS") {
            Some(IdeProduct::PhpStorm)
        } else if str_eq(code, "WS") {
            Some(IdeProduct::WebStorm)
        } else if str_eq(code, "PY") {
            Some(IdeProduct::PyCharm)
        } else if str_eq(code, "RM") {
            Some(IdeProduct::RubyMine)
        } else if str_eq(code, "CL") {
            Some(IdeProduct::CLion)
        } else if str_eq(code, "GO") {
            Some(IdeProduct::GoLand)
        } else if str_eq(code, "DB") {
            Some(IdeProduct::DataGrip)
        } else if str_eq(code, "DS") {
            Some(IdeProduct::DataSpell)
        } else if str_eq(code, "RD") {
            Some(IdeProduct::Rider)
        } else if str_eq(code, "AI") {
            Some(IdeProduct::AndroidStudio)
        } else if str_eq(code, "RR") {
            Some(IdeProduct::RustRover)
        } else if str_eq(code, "QA") {
            Some(IdeProduct::Aqua)
        } else if str_eq(code, "WRS") {
            Some(IdeProduct::Writerside)
        } else if str_eq(code, "MPS") {
            Some(IdeProduct::Mps)
        } else {
            None
        }
    }

    /// The vendor's code of this product.
    pub fn product_code(&self) -> (r: &'static str)
        ensures
            r@ == spec_product_code(*self),
    {
        match self {
            IdeProduct::IntelliJIdea => "IU",
            IdeProduct::PhpStorm => "PS",
            IdeProduct::WebStorm => "WS",
            IdeProduct::PyCharm => "PY",
            IdeProduct::RubyMine => "RM",
            IdeProduct::CLion => "CL",
            IdeProduct::GoLand => "GO",
            IdeProduct::DataGrip => "DB",
            IdeProduct::DataSpell => "DS",
            IdeProduct::Rider => "RD",
            IdeProduct::AndroidStudio => "AI",
            IdeProduct::RustRover => "RR",
            IdeProduct::Aqua => "QA",
            IdeProduct::Writerside => "WRS",
            IdeProduct::Mps => "MPS",
        }
    }

    /// The product that the short key `code` names.
    pub fn try_from_nix_key(code: &str) -> (r: Option<Self>)
        ensures
            r == product_with_nix_key(code@),
    {
        if str_eq(code, "idea") {
            Some(IdeProduct::IntelliJIdea)
        } else if str_eq(code, "phpstorm") {
            Some(IdeProduct::PhpStorm)
        } else if str_eq(code, "webstorm") {
            Some(IdeProduct::WebStorm)
        } else if str_eq(code, "pycharm") {
            Some(IdeProduct::PyCharm)
        } else if str_eq(code, "ruby-mine") {
            Some(IdeProduct::RubyMine)
        } else if str_eq(code, "clion") {
            Some(IdeProduct::CLion)
        } else if str_eq(code, "goland") {
            Some(IdeProduct::GoLand)
        } else if str_eq(code, "datagrip") {
            Some(IdeProduct::DataGrip)
        } else if str_eq(code, "dataspell") {
            Some(IdeProduct::DataSpell)
        } else if str_eq(code, "rider") {
            Some(IdeProduct::Rider)
        } else if str_eq(code, "android-studio") {
            Some(IdeProduct::AndroidStudio)
        } else if str_eq(code, "rust-rover") {
            Some(IdeProduct::RustRover)
        } else if str_eq(code, "aqua") {
            Some(IdeProduct::Aqua)
        } else if str_eq(code, "writerside") {
            Some(IdeProduct::Writerside)
        } else if str_eq(code, "mps") {
            Some(IdeProduct::Mps)
        } else {
            None
        }
    }

    /// The short key of this product, used in persisted file names.
    pub fn nix_key(&self) -> (r: &'static str)
        ensures
            r@ == spec_nix_key(*self),
    {
        match self {
            IdeProduct::IntelliJIdea => "idea",
            IdeProduct::PhpStorm => "phpstorm",
            IdeProduct::WebStorm => "webstorm",
            IdeProduct::PyCharm => "pycharm",
            IdeProduct::RubyMine => "ruby-mine",
            IdeProduct::CLion => "clion",
            IdeProduct::GoLand => "goland",
            IdeProduct::DataGrip => "datagrip",
            IdeProduct::DataSpell => "dataspell",
            IdeProduct::Rider => "rider",
            IdeProduct::AndroidStudio => "android-studio",
            IdeProduct::RustRover => "rust-rover",
            IdeProduct::Aqua => "aqua",
            IdeProduct::Writerside => "writerside",
            IdeProduct::Mps => "mps",
        }
    }
}

/// One release of one IDE product. Two releases are the same when product and
/// version agree; the build number only serves compatibility resolution.
#[derive(Debug)]
pub struct IdeVersion {
    pub ide: IdeProduct,
    pub version: String,
    pub build_number: String,
}

impl IdeVersion {
    /// What identifies the release: its product and version.
    pub open spec fn key(&self) -> (IdeProduct, Seq<char>) {
        (self.ide, self.version@)
    }

    /// Reads a release back from the name of its per-IDE file. The build number
    /// is not part of the name and comes back empty.
    pub fn from_json_filename(filename: &str) -> (r: Option<Self>)
        ensures
            match r {
                Some(v) => parse_ide_filename(filename@) == Some(v.key()) && v.build_number@.len()
                    == 0,
                None => parse_ide_filename(filename@) is None,
            },
    {
        proof {
            reveal_strlit(".json");
        }
        if !ends_with(filename, ".json") {
            return None;
        }
        let stem = filename.substring_char(0, filename.unicode_len() - 5);
        assert(stem@ =~= filename@.subrange(0, filename@.len() - ".json"@.len()));
        let dash = last_index_of(stem, '-');
        match dash {
            None => None,
            Some(i) => {
                proof {
                    lemma_last_pos_bounds(stem@, '-');
                }
                let product = stem.substring_char(0, i);
                let version = stem.substring_char(i + 1, stem.unicode_len());
                match IdeProduct::try_from_nix_key(product) {
                    None => None,
                    Some(ide) => Some(
                        IdeVersion {
                            ide,
                            version: String::from_str(version),
                            build_number: String::new(),
                        },
                    ),
                }
            },
        }
    }

    /// The name of this release's per-IDE file: short key, dash, version, `.json`.
    pub fn to_json_filename(&self) -> (r: String)
        ensures
            r@ == ide_filename(self.ide, self.version@),
    {
        String::from_str(self.ide.nix_key()).concat("-").concat(self.version.as_str()).concat(".json")
    }
}

impl Clone for IdeVersion {
    fn clone(&self) -> (r: Self)
        ensures
            r.ide == self.ide,
            r.version@ == self.version@,
            r.build_number@ == self.build_number@,
    {
        IdeVersion {
            ide: self.ide,
            version: self.version.clone(),
            build_number: self.build_number.clone(),
        }
    }
}

impl PartialEq for IdeVersion {
    fn eq(&self, other: &IdeVersion) -> (r: bool) {
        self.ide == other.ide && self.version == other.version
    }
}

impl vstd::std_specs::cmp::PartialEqSpecImpl for IdeVersion {
    open spec fn obeys_eq_spec() -> bool {
        true
    }

    open spec fn eq_spec(&self, other: &IdeVersion) -> bool {
        self.key() == other.key()
    }
}

impl Eq for IdeVersion {
}

/// The name of the per-IDE file of a release.
pub open spec fn ide_filename(ide: IdeProduct, version: Seq<char>) -> Seq<char> {
    spec_nix_key(ide) + "-"@ + version + ".json"@
}

/// The release that a per-IDE file name stands for: the name without `.json`
/// splits at its last dash into a short key and a version.
pub open spec fn parse_ide_filename(f: Seq<char>) -> Option<(IdeProduct, Seq<char>)> {
    if !has_suffix(f, ".json"@) {
        None
    } else {
        let stem = f.subrange(0, f.len() - ".json"@.len());
        let i = last_pos(stem, '-');
        if i < 0 {
            None
        } else {
            match product_with_nix_key(stem.subrange(0, i)) {
                Some(p) => Some((p, stem.subrange(i + 1, stem.len() as int))),
                None => None,
            }
        }
    }
}

/// A release's file name reads back as the same product and version, for every
/// version without a dash.
pub proof fn lemma_ide_filename_round_trip(ide: IdeProduct, version: Seq<char>)
    requires
        forall|j: int| 0 <= j < version.len() ==> version[j] != '-',
    ensures
        parse_ide_filename(ide_filename(ide, version)) == Some((ide, version)),
{
    reveal_strlit("-");
    reveal_strlit(".json");
    let key = spec_nix_key(ide);
    let f = ide_filename(ide, version);
    let stem = key + seq!['-'] + version;
    assert("-"@ =~= seq!['-']);
    assert(f =~= stem + ".json"@);
    assert(f.subrange(f.len() - ".json"@.len(), f.len() as int) =~= ".json"@);
    assert(f.subrange(0, f.len() - ".json"@.len()) =~= stem);
    lemma_last_pos_split(key, '-', version);
    assert(stem.subrange(0, key.len() as int) =~= key);
    assert(stem.subrange(key.len() as int + 1, stem.len() as int) =~= version);
    lemma_nix_key_round_trip(ide);
}

/// The release series that are processed.
pub open spec fn allowed_version(version: Seq<char>) -> bool {
    has_prefix(version, "2027."@) || has_prefix(version, "2026."@) || has_prefix(version, "2025."@)
        || has_prefix(version, "2024.3."@)
}

/// Whether a release belongs to a series that is processed.
pub fn allowed_build_version(version: &str) -> (r: bool)
    ensures
        r == allowed_version(version@),
{
    starts_with(version, "2027.") || starts_with(version, "2026.") || starts_with(version, "2025.")
        || starts_with(version, "2024.3.")
}

/// What identifies a release, with its build number.
pub open spec fn release_view(v: IdeVersion) -> (IdeProduct, Seq<char>, Seq<char>) {
    (v.ide, v.version@, v.build_number@)
}

/// The views of a list of releases.
pub open spec fn release_views(s: Seq<IdeVersion>) -> Seq<(IdeProduct, Seq<char>, Seq<char>)> {
    s.map_values(|v: IdeVersion| release_view(v))
}

/// The JetBrains release feed: its products.
#[derive(Debug, PartialEq)]
pub struct Products {
    pub product: Vec<Product>,
}

/// One product of the feed, under one or more product codes.
#[derive(Debug, PartialEq)]
pub struct Product {
    pub code: Vec<String>,
    pub channel: Option<Vec<Channel>>,
}

/// A release channel of a product.
#[derive(Debug, PartialEq)]
pub struct Channel {
    pub id: String,
    pub build: Vec<Build>,
}

/// One build in a channel: its short and full build numbers and its version.
#[derive(Debug, PartialEq)]
pub struct Build {
    pub number: String,
    pub full_number: Option<String>,
    pub version: String,
}

/// The release that a build of product `p` stands for; the full build number
/// is preferred.
pub open spec fn build_release(p: IdeProduct, b: Build) -> (IdeProduct, Seq<char>, Seq<char>) {
    (
        p,
        b.version@,
        match b.full_number {
            Some(f) => f@,
            None => b.number@,
        },
    )
}

/// The releases of the builds in series that are processed.
pub open spec fn builds_releases(p: IdeProduct, bs: Seq<Build>) -> Seq<
    (IdeProduct, Seq<char>, Seq<char>),
>
    decreases bs.len(),
{
    if bs.len() == 0 {
        seq![]
    } else if allowed_version(bs.last().version@) {
        builds_releases(p, bs.drop_last()).push(build_release(p, bs.last()))
    } else {
        builds_releases(p, bs.drop_last())
    }
}

/// The releases of the release channels (id ending in
/// `RELEASE-licensing-RELEASE`) among `chs`, channel after channel.
pub open spec fn channels_releases(p: IdeProduct, chs: Seq<Channel>) -> Seq<
    (IdeProduct, Seq<char>, Seq<char>),
>
    decreases chs.len(),
{
    if chs.len() == 0 {
        seq![]
    } else if has_suffix(chs.last().id@, "RELEASE-licensing-RELEASE"@) {
        channels_releases(p, chs.drop_last()) + builds_releases(p, chs.last().build@)
    } else {
        channels_releases(p, chs.drop_last())
    }
}

/// The releases found so far, and the products already taken.
pub type FeedState = (Seq<(IdeProduct, Seq<char>, Seq<char>)>, Set<IdeProduct>);

/// One product code of the feed: a known product not taken yet is taken, with
/// the releases of its channels.
pub open spec fn code_step(st: FeedState, code: Seq<char>, channels: Option<Vec<Channel>>) -> FeedState {
    match product_with_code(code) {
        None => st,
        Some(p) => if st.1.contains(p) {
            st
        } else {
            (
                st.0 + match channels {
                    Some(chs) => channels_releases(p, chs@),
                    None => seq![],
                },
                st.1.insert(p),
            )
        },
    }
}

/// The product codes of one product, in order.
pub open spec fn codes_fold(st: FeedState, codes: Seq<String>, channels: Option<Vec<Channel>>) -> FeedState
    decreases codes.len(),
{
    if codes.len() == 0 {
        st
    } else {
        code_step(codes_fold(st, codes.drop_last(), channels), codes.last()@, channels)
    }
}

/// The products of the feed, in order.
pub open spec fn products_fold(ps: Seq<Product>) -> FeedState
    decreases ps.len(),
{
    if ps.len() == 0 {
        (seq![], Set::empty())
    } else {
        codes_fold(products_fold(ps.drop_last()), ps.last().code@, ps.last().channel)
    }
}

/// The releases that the JetBrains feed offers: for each known product, under
/// the first code that names it, the builds of its release channels that
/// belong to a processed series.
pub fn jetbrains_releases(products: &Products) -> (r: Vec<IdeVersion>)
    ensures
        release_views(r@) == products_fold(products.product@).0,
{
    let ps = &products.product;
    let mut out: Vec<IdeVersion> = Vec::new();
    let mut seen: Vec<IdeProduct> = Vec::new();
    let mut i: usize = 0;
    proof {
        assert(ps@.subrange(0, 0) =~= Seq::<Product>::empty());
        assert(release_views(out@) =~= Seq::empty());
        assert(seen@.to_set() =~= Set::empty());
    }
    while i < ps.len()
        invariant
            i <= ps@.len(),
            release_views(out@) == products_fold(ps@.subrange(0, i as int)).0,
            seen@.to_set() == products_fold(ps@.subrange(0, i as int)).1,
        decreases ps@.len() - i,
    {
        let product = &ps[i];
        let ghost st0 = products_fold(ps@.subrange(0, i as int));
        let mut c: usize = 0;
        proof {
            assert(product.code@.subrange(0, 0) =~= Seq::<String>::empty());
        }
        while c < product.code.len()
            invariant
                i < ps@.len(),
                product == ps@[i as int],
                c <= product.code@.len(),
                release_views(out@) == codes_fold(st0, product.code@.subrange(0, c as int), product.channel).0,
                seen@.to_set() == codes_fold(st0, product.code@.subrange(0, c as int), product.channel).1,
            decreases product.code@.len() - c,
        {
            proof {
                assert(product.code@.subrange(0, c + 1).drop_last() =~= product.code@.subrange(0, c as int));
            }
            match IdeProduct::try_from_code(product.code[c].as_str()) {
                None => {},
                Some(p) => {
                    let mut k: usize = 0;
                    let mut taken = false;
                    while k < seen.len()
                        invariant
                            k <= seen@.len(),
                            taken == exists|x: int| 0 <= x < k && seen@[x] == p,
                        decreases seen@.len() - k,
                    {
                        if seen[k] == p {
                            taken = true;
                        }
                        k += 1;
                    }
                    if !taken {
                        let ghost before = seen@;
                        seen.push(p);
                        proof {
                            before.lemma_push_to_set_commute(p);
                        }
                        match &product.channel {
                            None => {
                                proof {
                                    assert(release_views(out@) =~= release_views(out@) + Seq::<(IdeProduct, Seq<char>, Seq<char>)>::empty());
                                }
                            },
                            Some(chs) => {
                                channel_builds(p, chs, &mut out);
                            },
                        }
                    } else {
                        proof {
                            let x = choose|x: int| 0 <= x < k && seen@[x] == p;
                            assert(seen@.to_set().contains(p));
                        }
                    }
                },
            }
            c += 1;
        }
        proof {
            assert(product.code@.subrange(0, product.code@.len() as int) =~= product.code@);
            assert(ps@.subrange(0, i + 1).drop_last() =~= ps@.subrange(0, i as int));
        }
        i += 1;
    }
    proof {
        assert(ps@.subrange(0, ps@.len() as int) =~= ps@);
    }
    out
}

/// Appends the releases of the release channels among `chs` to `out`.
fn channel_builds(p: IdeProduct, chs: &Vec<Channel>, out: &mut Vec<IdeVersion>)
    ensures
        release_views(final(out)@) == release_views(old(out)@) + channels_releases(p, chs@),
{
    let ghost start = release_views(out@);
    let mut h: usize = 0;
    proof {
        assert(chs@.subrange(0, 0) =~= Seq::<Channel>::empty());
        assert(release_views(out@) =~= start + channels_releases(p, chs@.subrange(0, 0)));
    }
    while h < chs.len()
        invariant
            h <= chs@.len(),
            start == release_views(old(out)@),
            release_views(out@) == start + channels_releases(p, chs@.subrange(0, h as int)),
        decreases chs@.len() - h,
    {
        let ch = &chs[h];
        proof {
            assert(chs@.subrange(0, h + 1).drop_last() =~= chs@.subrange(0, h as int));
        }
        if ends_with(ch.id.as_str(), "RELEASE-licensing-RELEASE") {
            let ghost mid = release_views(out@);
            let mut b: usize = 0;
            proof {
                assert(ch.build@.subrange(0, 0) =~= Seq::<Build>::empty());
                assert(release_views(out@) =~= mid + builds_releases(p, ch.build@.subrange(0, 0)));
            }
            while b < ch.build.len()
                invariant
                    h < chs@.len(),
                    ch == chs@[h as int],
                    b <= ch.build@.len(),
                    release_views(out@) == mid + builds_releases(p, ch.build@.subrange(0, b as int)),
                decreases ch.build@.len() - b,
            {
                let build = &ch.build[b];
                proof {
                    assert(ch.build@.subrange(0, b + 1).drop_last() =~= ch.build@.subrange(0, b as int));
                }
                if allowed_build_version(build.version.as_str()) {
                    let number = match &build.full_number {
                        Some(f) => f.clone(),
                        None => build.number.clone(),
                    };
                    let ghost before = release_views(out@);
                    out.push(IdeVersion { ide: p, version: build.version.clone(), build_number: number });
                    proof {
                        assert(release_views(out@) =~= before.push(build_release(p, *build)));
                        assert(release_views(out@) =~= mid + builds_releases(p, ch.build@.subrange(0, b + 1)));
                    }
                }
                b += 1;
            }
            proof {
                assert(ch.build@.subrange(0, ch.build@.len() as int) =~= ch.build@);
                assert(release_views(out@) =~= start + channels_releases(p, chs@.subrange(0, h + 1)));
            }
        }
        h += 1;
    }
    proof {
        assert(chs@.subrange(0, chs@.len() as int) =~= chs@);
    }
}

/// The Android Studio release feed.
#[derive(Debug, PartialEq)]
pub struct Body {
    pub content: Content,
}

/// The items of the Android Studio release feed.
#[derive(Debug, PartialEq)]
pub struct Content {
    pub item: Vec<Item>,
}

/// One Android Studio release: its version, its own build (`AI-...`), the
/// build of the platform it is based on, and its channel.
#[derive(Debug, PartialEq)]
pub struct Item {
    pub version: String,
    pub build: String,
    pub platform_build: String,
    pub channel: String,
}

/// The Android Studio releases of processed series, in feed order, keyed by
/// their platform build; every channel is taken.
pub open spec fn android_releases_of(items: Seq<Item>) -> Seq<(IdeProduct, Seq<char>, Seq<char>)>
    decreases items.len(),
{
    if items.len() == 0 {
        seq![]
    } else if allowed_version(items.last().version@) {
        android_releases_of(items.drop_last()).push(
            (IdeProduct::AndroidStudio, items.last().version@, items.last().platform_build@),
        )
    } else {
        android_releases_of(items.drop_last())
    }
}

/// The releases that the Android Studio feed offers. Every item's build must
/// carry the product code `AI-`; the position of the first that does not is
/// the error.
pub fn android_releases(body: &Body) -> (r: Result<Vec<IdeVersion>, usize>)
    ensures
        match r {
            Ok(v) => (forall|j: int|
                0 <= j < body.content.item@.len() ==> has_prefix(
                    #[trigger] body.content.item@[j].build@,
                    "AI-"@,
                )) && release_views(v@) == android_releases_of(body.content.item@),
            Err(i) => i < body.content.item@.len() && !has_prefix(
                body.content.item@[i as int].build@,
                "AI-"@,
            ) && forall|j: int|
                0 <= j < i ==> has_prefix(#[trigger] body.content.item@[j].build@, "AI-"@),
        },
{
    let items = &body.content.item;
    let mut out: Vec<IdeVersion> = Vec::new();
    let mut i: usize = 0;
    proof {
        assert(items@.subrange(0, 0) =~= Seq::<Item>::empty());
        assert(release_views(out@) =~= Seq::empty());
    }
    while i < items.len()
        invariant
            items@ == body.content.item@,
            i <= items@.len(),
            forall|j: int| 0 <= j < i ==> has_prefix(#[trigger] items@[j].build@, "AI-"@),
            release_views(out@) == android_releases_of(items@.subrange(0, i as int)),
        decreases items@.len() - i,
    {
        let item = &items[i];
        if !starts_with(item.build.as_str(), "AI-") {
            assert(!has_prefix(body.content.item@[i as int].build@, "AI-"@));
            return Err(i);
        }
        proof {
            assert(items@.subrange(0, i + 1).drop_last() =~= items@.subrange(0, i as int));
        }
        if allowed_build_version(item.version.as_str()) {
            let ghost before = release_views(out@);
            out.push(
                IdeVersion {
                    ide: IdeProduct::AndroidStudio,
                    version: item.version.clone(),
                    build_number: item.platform_build.clone(),
                },
            );
            proof {
                assert(release_views(out@) =~= before.push(
                    (IdeProduct::AndroidStudio, item.version@, item.platform_build@),
                ));
            }
        }
        i += 1;
    }
    proof {
        assert(items@.subrange(0, items@.len() as int) =~= items@);
    }
    Ok(out)
}

/// Reading a product's code back gives the product.
pub proof fn lemma_product_code_round_trip(p: IdeProduct)
    ensures
        product_with_code(spec_product_code(p)) == Some(p),
{
    reveal_strlit("IU");
    assert("IU"@.len() == 2);
    assert("IU"@[0] == 'I');
    assert("IU"@[1] == 'U');
    reveal_strlit("PS");
    assert("PS"@.len() == 2);
    assert("PS"@[0] == 'P');
    assert("PS"@[1] == 'S');
    reveal_strlit("WS");
    assert("WS"@.len() == 2);
    assert("WS"@[0] == 'W');
    assert("WS"@[1] == 'S');
    reveal_strlit("PY");
    assert("PY"@.len() == 2);
    assert("PY"@[0] == 'P');
    assert("PY"@[1] == 'Y');
    reveal_strlit("RM");
    assert("RM"@.len() == 2);
    assert("RM"@[0] == 'R');
    assert("RM"@[1] == 'M');
    reveal_strlit("CL");
    assert("CL"@.len() == 2);
    assert("CL"@[0] == 'C');
    assert("CL"@[1] == 'L');
    reveal_strlit("GO");
    assert("GO"@.len() == 2);
    assert("GO"@[0] == 'G');
    assert("GO"@[1] == 'O');
    reveal_strlit("DB");
    assert("DB"@.len() == 2);
    assert("DB"@[0] == 'D');
    assert("DB"@[1] == 'B');
    reveal_strlit("DS");
    assert("DS"@.len() == 2);
    assert("DS"@[0] == 'D');
    assert("DS"@[1] == 'S');
    reveal_strlit("RD");
    assert("RD"@.len() == 2);
    assert("RD"@[0] == 'R');
    assert("RD"@[1] == 'D');
    reveal_strlit("AI");
    assert("AI"@.len() == 2);
    assert("AI"@[0] == 'A');
    assert("AI"@[1] == 'I');
    reveal_strlit("RR");
    assert("RR"@.len() == 2);
    assert("RR"@[0] == 'R');
    assert("RR"@[1] == 'R');
    reveal_strlit("QA");
    assert("QA"@.len() == 2);
    assert("QA"@[0] == 'Q');
    assert("QA"@[1] == 'A');
    reveal_strlit("WRS");
    assert("WRS"@.len() == 3);
    assert("WRS"@[0] == 'W');
    assert("WRS"@[1] == 'R');
    assert("WRS"@[2] == 'S');
    reveal_strlit("MPS");
    assert("MPS"@.len() == 3);
    assert("MPS"@[0] == 'M');
    assert("MPS"@[1] == 'P');
    assert("MPS"@[2] == 'S');
}

/// Reading a product's short key back gives the product.
pub proof fn lemma_nix_key_round_trip(p: IdeProduct)
    ensures
        product_with_nix_key(spec_nix_key(p)) == Some(p),
{
    reveal_strlit("idea");
    assert("idea"@.len() == 4);
    assert("idea"@[0] == 'i');
    assert("idea"@[1] == 'd');
    assert("idea"@[2] == 'e');
    assert("idea"@[3] == 'a');
    reveal_strlit("phpstorm");
    assert("phpstorm"@.len() == 8);
    assert("phpstorm"@[0] == 'p');
    assert("phpstorm"@[1] == 'h');
    assert("phpstorm"@[2] == 'p');
    assert("phpstorm"@[3] == 's');
    assert("phpstorm"@[4] == 't');
    assert("phpstorm"@[5] == 'o');
    assert("phpstorm"@[6] == 'r');
    assert("phpstorm"@[7] == 'm');
    reveal_strlit("webstorm");
    assert("webstorm"@.len() == 8);
    assert("webstorm"@[0] == 'w');
    assert("webstorm"@[1] == 'e');
    assert("webstorm"@[2] == 'b');
    assert("webstorm"@[3] == 's');
    assert("webstorm"@[4] == 't');
    assert("webstorm"@[5] == 'o');
    assert("webstorm"@[6] == 'r');
    assert("webstorm"@[7] == 'm');
    reveal_strlit("pycharm");
    assert("pycharm"@.len() == 7);
    assert("pycharm"@[0] == 'p');
    assert("pycharm"@[1] == 'y');
    assert("pycharm"@[2] == 'c');
    assert("pycharm"@[3] == 'h');
    assert("pycharm"@[4] == 'a');
    assert("pycharm"@[5] == 'r');
    assert("pycharm"@[6] == 'm');
    reveal_strlit("ruby-mine");
    assert("ruby-mine"@.len() == 9);
    assert("ruby-mine"@[0] == 'r');
    assert("ruby-mine"@[1] == 'u');
    assert("ruby-mine"@[2] == 'b');
    assert("ruby-mine"@[3] == 'y');
    assert("ruby-mine"@[4] == '-');
    assert("ruby-mine"@[5] == 'm');
    assert("ruby-mine"@[6] == 'i');
    assert("ruby-mine"@[7] == 'n');
    assert("ruby-mine"@[8] == 'e');
    reveal_strlit("clion");
    assert("clion"@.len() == 5);
    assert("clion"@[0] == 'c');
    assert("clion"@[1] == 'l');
    assert("clion"@[2] == 'i');
    assert("clion"@[3] == 'o');
    assert("clion"@[4] == 'n');
    reveal_strlit("goland");
    assert("goland"@.len() == 6);
    assert("goland"@[0] == 'g');
    assert("goland"@[1] == 'o');
    assert("goland"@[2] == 'l');
    assert("goland"@[3] == 'a');
    assert("goland"@[4] == 'n');
    assert("goland"@[5] == 'd');
    reveal_strlit("datagrip");
    assert("datagrip"@.len() == 8);
    assert("datagrip"@[0] == 'd');
    assert("datagrip"@[1] == 'a');
    assert("datagrip"@[2] == 't');
    assert("datagrip"@[3] == 'a');
    assert("datagrip"@[4] == 'g');
    assert("datagrip"@[5] == 'r');
    assert("datagrip"@[6] == 'i');
    assert("datagrip"@[7] == 'p');
    reveal_strlit("dataspell");
    assert("dataspell"@.len() == 9);
    assert("dataspell"@[0] == 'd');
    assert("dataspell"@[1] == 'a');
    assert("dataspell"@[2] == 't');
    assert("dataspell"@[3] == 'a');
    assert("dataspell"@[4] == 's');
    assert("dataspell"@[5] == 'p');
    assert("dataspell"@[6] == 'e');
    assert("dataspell"@[7] == 'l');
    assert("dataspell"@[8] == 'l');
    reveal_strlit("rider");
    assert("rider"@.len() == 5);
    assert("rider"@[0] == 'r');
    assert("rider"@[1] == 'i');
    assert("rider"@[2] == 'd');
    assert("rider"@[3] == 'e');
    assert("rider"@[4] == 'r');
    reveal_strlit("android-studio");
    assert("android-studio"@.len() == 14);
    assert("android-studio"@[0] == 'a');
    assert("android-studio"@[1] == 'n');
    assert("android-studio"@[2] == 'd');
    assert("android-studio"@[3] == 'r');
    assert("android-studio"@[4] == 'o');
    assert("android-studio"@[5] == 'i');
    assert("android-studio"@[6] == 'd');
    assert("android-studio"@[7] == '-');
    assert("android-studio"@[8] == 's');
    assert("android-studio"@[9] == 't');
    assert("android-studio"@[10] == 'u');
    assert("android-studio"@[11] == 'd');
    assert("android-studio"@[12] == 'i');
    assert("android-studio"@[13] == 'o');
    reveal_strlit("rust-rover");
    assert("rust-rover"@.len() == 10);
    assert("rust-rover"@[0] == 'r');
    assert("rust-rover"@[1] == 'u');
    assert("rust-rover"@[2] == 's');
    assert("rust-rover"@[3] == 't');
    assert("rust-rover"@[4] == '-');
    assert("rust-rover"@[5] == 'r');
    assert("rust-rover"@[6] == 'o');
    assert("rust-rover"@[7] == 'v');
    assert("rust-rover"@[8] == 'e');
    assert("rust-rover"@[9] == 'r');
    reveal_strlit("aqua");
    assert("aqua"@.len() == 4);
    assert("aqua"@[0] == 'a');
    assert("aqua"@[1] == 'q');
    assert("aqua"@[2] == 'u');
    assert("aqua"@[3] == 'a');
    reveal_strlit("writerside");
    assert("writerside"@.len() == 10);
    assert("writerside"@[0] == 'w');
    assert("writerside"@[1] == 'r');
    assert("writerside"@[2] == 'i');
    assert("writerside"@[3] == 't');
    assert("writerside"@[4] == 'e');
    assert("writerside"@[5] == 'r');
    assert("writerside"@[6] == 's');
    assert("writerside"@[7] == 'i');
    assert("writerside"@[8] == 'd');
    assert("writerside"@[9] == 'e');
    reveal_strlit("mps");
    assert("mps"@.len() == 3);
    assert("mps"@[0] == 'm');
    assert("mps"@[1] == 'p');
    assert("mps"@[2] == 's');
}

} // verus!
