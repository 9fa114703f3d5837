//! The application bundle: where its files are, and what its `Info.plist`
//! says, as the emulator reads it.
use vstd::prelude::*;
use crate::text::{answered, chars_of, concat, seq_ends_with, str_ends_with, str_eq, string_from_chars};
use crate::libc::{lowercase, to_lowercase};
use crate::window::DeviceFamily;

verus! {

/// A property-list value, as far as the bundle logic reads it.
#[derive(Debug)]
pub enum PlistValue {
    Array(Vec<PlistValue>),
    /// The entries of a dictionary, in the file's order, keys unique.
    Dictionary(Vec<(String, PlistValue)>),
    Boolean(bool),
    Integer(i128),
    String(String),
    /// Data, a date, a real number or a UID: nothing here reads those.
    Other,
}


/// The value of the first entry with key `key`.
pub open spec fn plist_get(entries: Seq<(String, PlistValue)>, key: Seq<char>) -> Option<PlistValue>
    decreases entries.len(),
{
    if entries.len() == 0 {
        None
    } else if entries[0].0@ == key {
        Some(entries[0].1)
    } else {
        plist_get(entries.drop_first(), key)
    }
}

/// The string a value holds, if it is a string.
pub open spec fn as_string(v: PlistValue) -> Option<Seq<char>> {
    match v {
        PlistValue::String(s) => Some(s@),
        _ => None,
    }
}

/// The string of an entry that, where present, must be a string.
pub open spec fn string_or_absent(v: Option<PlistValue>) -> bool {
    v matches Some(x) ==> as_string(x) is Some
}

fn plist_lookup<'a>(entries: &'a Vec<(String, PlistValue)>, key: &str) -> (r: Option<&'a PlistValue>)
    ensures
        match (r, plist_get(entries@, key@)) {
            (Some(a), Some(b)) => *a == b,
            (None, None) => true,
            _ => false,
        },
{
    let mut i: usize = 0;
    assert(entries@.subrange(0, entries@.len() as int) =~= entries@);
    while i < entries.len()
        invariant
            i <= entries@.len(),
            plist_get(entries@, key@) == plist_get(entries@.subrange(i as int, entries@.len() as int), key@),
        decreases entries@.len() - i,
    {
        let ghost rest = entries@.subrange(i as int, entries@.len() as int);
        if str_eq(entries[i].0.as_str(), key) {
            return Some(&entries[i].1);
        }
        assert(rest.drop_first() =~= entries@.subrange(i + 1, entries@.len() as int));
        i = i + 1;
    }
    None
}

fn value_string(v: &PlistValue) -> (r: Option<&str>)
    ensures
        match r {
            Some(s) => as_string(*v) == Some(s@),
            None => as_string(*v) is None,
        },
{
    match v {
        PlistValue::String(s) => Some(s.as_str()),
        _ => None,
    }
}

/// The application bundle: its path in the guest file system and the
/// entries of its `Info.plist`.
#[derive(Debug)]
pub struct Bundle {
    path: String,
    plist: Vec<(String, PlistValue)>,
}

impl Bundle {
    pub closed spec fn path(&self) -> Seq<char> {
        self.path@
    }

    pub closed spec fn entries(&self) -> Seq<(String, PlistValue)> {
        self.plist@
    }

    /// The value of the entry `key` of `Info.plist`.
    pub open spec fn entry(&self, key: Seq<char>) -> Option<PlistValue> {
        plist_get(self.entries(), key)
    }

    /// The bundle at `path` with the entries of its `Info.plist` (read and
    /// parsed by the caller).
    pub fn new(path: String, plist: Vec<(String, PlistValue)>) -> (r: Bundle)
        ensures
            r.path() == path@,
            r.entries() == plist@,
    {
        Bundle { path, plist }
    }

    /// A bundle with no path and an empty `Info.plist`, for running without
    /// an app.
    pub fn new_fake_bundle() -> (r: Bundle)
        ensures
            r.path() == Seq::<char>::empty(),
            r.entries() == Seq::<(String, PlistValue)>::empty(),
    {
        Bundle { path: String::new(), plist: Vec::new() }
    }

    pub fn bundle_path(&self) -> (r: &str)
        ensures
            r@ == self.path(),
    {
        self.path.as_str()
    }

    fn string_entry(&self, key: &str) -> (r: Option<&str>)
        requires
            string_or_absent(self.entry(key@)),
        ensures
            match r {
                Some(s) => self.entry(key@) matches Some(v) && as_string(v) == Some(s@),
                None => self.entry(key@) is None,
            },
    {
        match plist_lookup(&self.plist, key) {
            Some(v) => value_string(v),
            None => None,
        }
    }

    /// `CFBundleIdentifier`, which every app has.
    pub fn bundle_identifier(&self) -> (r: &str)
        requires
            self.entry("CFBundleIdentifier"@) matches Some(v) && as_string(v) is Some,
        ensures
            Some(r@) == as_string(self.entry("CFBundleIdentifier"@)->0),
    {
        self.string_entry("CFBundleIdentifier").unwrap()
    }

    /// `CFBundleVersion`, which every app has.
    pub fn bundle_version(&self) -> (r: &str)
        requires
            self.entry("CFBundleVersion"@) matches Some(v) && as_string(v) is Some,
        ensures
            Some(r@) == as_string(self.entry("CFBundleVersion"@)->0),
    {
        self.string_entry("CFBundleVersion").unwrap()
    }

    /// Canonical name for the bundle according to `Info.plist`
    /// (`CFBundleName`).
    pub fn canonical_bundle_name(&self) -> (r: Option<&str>)
        requires
            string_or_absent(self.entry("CFBundleName"@)),
        ensures
            match r {
                Some(s) => self.entry("CFBundleName"@) matches Some(v) && as_string(v) == Some(s@),
                None => self.entry("CFBundleName"@) is None,
            },
    {
        self.string_entry("CFBundleName")
    }

    /// `CFBundleDisplayName`, or the empty string.
    pub fn display_name(&self) -> (r: &str)
        requires
            string_or_absent(self.entry("CFBundleDisplayName"@)),
        ensures
            match self.entry("CFBundleDisplayName"@) {
                Some(v) => as_string(v) == Some(r@),
                None => r@ == ""@,
            },
    {
        match self.string_entry("CFBundleDisplayName") {
            Some(s) => s,
            None => "",
        }
    }

    /// `MinimumOSVersion`, if given.
    pub fn minimum_os_version(&self) -> (r: Option<&str>)
        requires
            string_or_absent(self.entry("MinimumOSVersion"@)),
        ensures
            match r {
                Some(s) => self.entry("MinimumOSVersion"@) matches Some(v) && as_string(v) == Some(s@),
                None => self.entry("MinimumOSVersion"@) is None,
            },
    {
        self.string_entry("MinimumOSVersion")
    }

    /// `UIStatusBarHidden`; false if absent or not a boolean.
    pub fn status_bar_hidden(&self) -> (r: bool)
        ensures
            r == (self.entry("UIStatusBarHidden"@) == Some(PlistValue::Boolean(true))),
    {
        match plist_lookup(&self.plist, "UIStatusBarHidden") {
            Some(PlistValue::Boolean(b)) => *b,
            _ => false,
        }
    }
}


/// `name` joined to the directory path `base`.
pub open spec fn path_join(base: Seq<char>, name: Seq<char>) -> Seq<char> {
    if base.len() == 0 {
        name
    } else if base.last() == '/' {
        base + name
    } else {
        base + seq!['/'] + name
    }
}

fn join(base: &str, name: &str) -> (r: String)
    ensures
        r@ == path_join(base@, name@),
{
    proof {
        reveal_strlit("");
        reveal_strlit("/");
        assert(""@ + name@ =~= name@);
        assert("/"@ =~= seq!['/']);
    }
    let cs = chars_of(base);
    if cs.len() == 0 {
        concat("", name)
    } else if cs[cs.len() - 1] == '/' {
        concat(base, name)
    } else {
        let with_slash = concat(base, "/");
        concat(with_slash.as_str(), name)
    }
}

/// Where the last component of `p` starts, looking at its first `i`
/// characters.
pub open spec fn component_start(p: Seq<char>, i: int) -> int
    decreases i,
{
    if i <= 0 {
        0
    } else if p[i - 1] == '/' {
        i
    } else {
        component_start(p, i - 1)
    }
}

/// The last component of the path `p`.
pub open spec fn file_name(p: Seq<char>) -> Seq<char> {
    p.subrange(component_start(p, p.len() as int), p.len() as int)
}

proof fn lemma_component_start_bounds(p: Seq<char>, i: int)
    requires
        0 <= i <= p.len(),
    ensures
        0 <= component_start(p, i) <= i,
    decreases i,
{
    if i > 0 && p[i - 1] != '/' {
        lemma_component_start_bounds(p, i - 1);
    }
}

/// The strings among `items`, in order.
pub open spec fn strings_of(items: Seq<PlistValue>) -> Seq<Seq<char>>
    decreases items.len(),
{
    if items.len() == 0 {
        Seq::empty()
    } else {
        let rest = strings_of(items.drop_last());
        match as_string(items.last()) {
            Some(s) => rest.push(s),
            None => rest,
        }
    }
}

/// The capabilities an entry of `UIRequiredDeviceCapabilities` names: the
/// keys of a dictionary or the strings of an array.
pub open spec fn capability_names(v: PlistValue) -> Seq<Seq<char>> {
    match v {
        PlistValue::Dictionary(es) => Seq::new(es@.len(), |i: int| es@[i].0@),
        PlistValue::Array(items) => strings_of(items@),
        _ => Seq::empty(),
    }
}

/// `s` cut at each `','`, as `str::split` cuts it.
pub open spec fn split_commas(s: Seq<char>) -> Seq<Seq<char>>
    decreases s.len(),
{
    if s.len() == 0 {
        seq![Seq::empty()]
    } else {
        let p = split_commas(s.drop_last());
        if s.last() == ',' {
            p.push(Seq::empty())
        } else {
            p.update(p.len() - 1, p.last().push(s.last()))
        }
    }
}

proof fn lemma_split_commas_nonempty(s: Seq<char>)
    ensures
        split_commas(s).len() >= 1,
    decreases s.len(),
{
    if s.len() > 0 {
        lemma_split_commas_nonempty(s.drop_last());
    }
}

pub open spec fn portrait_name() -> Seq<char> {
    "UIInterfaceOrientationPortrait"@
}

/// The string of `v`, or the portrait orientation.
pub open spec fn string_or_portrait(v: PlistValue) -> Seq<char> {
    match as_string(v) {
        Some(s) => s,
        None => portrait_name(),
    }
}

/// The device family an integer of `UIDeviceFamily` stands for.
pub open spec fn device_family_of(v: PlistValue) -> Option<DeviceFamily> {
    match v {
        PlistValue::Integer(n) => if n == 1 {
            Some(DeviceFamily::iPhone)
        } else if n == 2 {
            Some(DeviceFamily::iPad)
        } else {
            None
        },
        _ => None,
    }
}

/// The device families that `items` name, in order.
pub open spec fn families_of(items: Seq<PlistValue>) -> Seq<DeviceFamily>
    decreases items.len(),
{
    if items.len() == 0 {
        Seq::empty()
    } else {
        let rest = families_of(items.drop_last());
        match device_family_of(items.last()) {
            Some(f) => rest.push(f),
            None => rest,
        }
    }
}

/// The file names tried for the launch image, in order, after the base
/// name.
pub open spec fn launch_suffixes(f: DeviceFamily) -> Seq<Seq<char>> {
    match f {
        DeviceFamily::iPhone5 => seq!["-568h@2x.png"@, "@2x.png"@, ".png"@],
        DeviceFamily::iPad => seq!["@2x~ipad.png"@, "~ipad.png"@, ".png"@],
        DeviceFamily::iPhone => seq!["@2x.png"@, ".png"@],
    }
}

fn launch_suffix(f: DeviceFamily, k: usize) -> (r: &'static str)
    requires
        k < launch_suffixes(f).len(),
    ensures
        r@ == launch_suffixes(f)[k as int],
{
    match f {
        DeviceFamily::iPhone5 => if k == 0 {
            "-568h@2x.png"
        } else if k == 1 {
            "@2x.png"
        } else {
            ".png"
        },
        DeviceFamily::iPad => if k == 0 {
            "@2x~ipad.png"
        } else if k == 1 {
            "~ipad.png"
        } else {
            ".png"
        },
        DeviceFamily::iPhone => if k == 0 {
            "@2x.png"
        } else {
            ".png"
        },
    }
}



/// The views of `v`, in order.
pub open spec fn str_views(v: Seq<&str>) -> Seq<Seq<char>> {
    Seq::new(v.len(), |i: int| v[i]@)
}

/// The views of `v`, in order.
pub open spec fn string_views(v: Seq<String>) -> Seq<Seq<char>> {
    Seq::new(v.len(), |i: int| v[i]@)
}

/// `s` cut at each `','` (see [split_commas]).
fn split_at_commas(s: &str) -> (r: Vec<String>)
    ensures
        string_views(r@) == split_commas(s@),
{
    let cs = chars_of(s);
    let mut pieces: Vec<String> = Vec::new();
    let mut cur: Vec<char> = Vec::new();
    let mut i: usize = 0;
    assert(string_views(pieces@).push(cur@) =~= split_commas(cs@.take(0)));
    while i < cs.len()
        invariant
            i <= cs@.len(),
            string_views(pieces@).push(cur@) == split_commas(cs@.take(i as int)),
        decreases cs@.len() - i,
    {
        let c = cs[i];
        let ghost before = string_views(pieces@);
        let ghost cur0 = cur@;
        assert(cs@.take(i + 1).drop_last() =~= cs@.take(i as int));
        if c == ',' {
            let piece = string_from_chars(cur.as_slice());
            pieces.push(piece);
            cur = Vec::new();
            assert(string_views(pieces@) =~= before.push(cur0));
            assert(string_views(pieces@).push(cur@) =~= before.push(cur0).push(Seq::empty()));
        } else {
            cur.push(c);
            assert(string_views(pieces@).push(cur@) =~= before.push(cur0).update(before.len() as int, cur0.push(c)));
        }
        i = i + 1;
    }
    assert(cs@.take(cs@.len() as int) =~= cs@);
    let ghost before = string_views(pieces@);
    let last = string_from_chars(cur.as_slice());
    pieces.push(last);
    assert(string_views(pieces@) =~= before.push(cur@));
    pieces
}

impl Bundle {
    /// The base name of the launch image: `UILaunchImageFile`, or
    /// `Default`.
    pub open spec fn launch_base(&self) -> Seq<char> {
        match self.entry("UILaunchImageFile"@) {
            Some(v) => as_string(v)->0,
            None => "Default"@,
        }
    }

    /// Path of the `k`-th launch image tried for the family `f`.
    pub open spec fn launch_candidate(&self, f: DeviceFamily, k: int) -> Seq<char> {
        path_join(self.path(), self.launch_base() + launch_suffixes(f)[k])
    }

    /// `CFBundleLocalizations`: its items if it is an array, else none.
    pub fn bundle_localizations(&self) -> (r: &[PlistValue])
        ensures
            match self.entry("CFBundleLocalizations"@) {
                Some(PlistValue::Array(v)) => r@ == v@,
                _ => r@.len() == 0,
            },
    {
        match plist_lookup(&self.plist, "CFBundleLocalizations") {
            Some(PlistValue::Array(v)) => v.as_slice(),
            _ => &[],
        }
    }

    /// Name of the bundle in the file system: the last component of its
    /// path without `.app`.
    pub fn bundle_name(&self) -> (r: String)
        requires
            seq_ends_with(file_name(self.path()), ".app"@),
        ensures
            r@ == file_name(self.path()).subrange(0, file_name(self.path()).len() - 4),
    {
        proof {
            reveal_strlit(".app");
        }
        let cs = chars_of(self.path.as_str());
        let n = cs.len();
        let mut start = n;
        while start > 0 && cs[start - 1] != '/'
            invariant
                start <= n,
                n == cs@.len(),
                component_start(cs@, n as int) == component_start(cs@, start as int),
            decreases start,
        {
            start = start - 1;
        }
        proof {
            lemma_component_start_bounds(cs@, n as int);
        }
        let end = n - 4;
        let mut out: Vec<char> = Vec::new();
        let mut k = start;
        while k < end
            invariant
                start <= k <= end,
                end <= n,
                n == cs@.len(),
                out@ == cs@.subrange(start as int, k as int),
            decreases end - k,
        {
            out.push(cs[k]);
            assert(out@ =~= cs@.subrange(start as int, k + 1));
            k = k + 1;
        }
        let r = string_from_chars(out.as_slice());
        assert(r@ =~= file_name(self.path()).subrange(0, file_name(self.path()).len() - 4));
        r
    }

    /// Path of the executable: `CFBundleExecutable` in the bundle.
    pub fn executable_path(&self) -> (r: String)
        requires
            self.entry("CFBundleExecutable"@) matches Some(v) && as_string(v) is Some,
        ensures
            r@ == path_join(self.path(), as_string(self.entry("CFBundleExecutable"@)->0)->0),
    {
        join(self.path.as_str(), self.string_entry("CFBundleExecutable").unwrap())
    }

    /// Path of the icon: `CFBundleIconFile` (with `.png` added unless it
    /// ends so, in any case), or `Icon.png`.
    pub fn icon_path(&self) -> (r: String)
        requires
            string_or_absent(self.entry("CFBundleIconFile"@)),
        ensures
            r@ == match self.entry("CFBundleIconFile"@) {
                Some(v) => {
                    let f = as_string(v)->0;
                    if seq_ends_with(lowercase(f), ".png"@) {
                        path_join(self.path(), f)
                    } else {
                        path_join(self.path(), f + ".png"@)
                    }
                },
                None => path_join(self.path(), "Icon.png"@),
            },
    {
        match self.string_entry("CFBundleIconFile") {
            Some(f) => {
                let lower = to_lowercase(f);
                if str_ends_with(lower.as_str(), ".png") {
                    join(self.path.as_str(), f)
                } else {
                    let with_ext = concat(f, ".png");
                    join(self.path.as_str(), with_ext.as_str())
                }
            },
            None => join(self.path.as_str(), "Icon.png"),
        }
    }

    /// Whether the icon gets a sheen: unless `UIPrerenderedIcon` is true, as
    /// a boolean or as the string `YES`.
    pub fn icon_gets_sheen(&self) -> (r: bool)
        ensures
            r == !match self.entry("UIPrerenderedIcon"@) {
                Some(PlistValue::Boolean(b)) => b,
                Some(PlistValue::String(s)) => s@ == "YES"@,
                _ => false,
            },
    {
        let prerendered = match plist_lookup(&self.plist, "UIPrerenderedIcon") {
            Some(PlistValue::Boolean(b)) => *b,
            Some(PlistValue::String(s)) => str_eq(s.as_str(), "YES"),
            _ => false,
        };
        !prerendered
    }

    /// The main nib: `NSMainNibFile~ipad` on an iPad where given, else
    /// `NSMainNibFile`.
    pub fn main_nib_filename(&self, device_family: Option<DeviceFamily>) -> (r: Option<&str>)
        requires
            device_family == Some(DeviceFamily::iPad) && self.entry("NSMainNibFile~ipad"@) is Some
                ==> as_string(self.entry("NSMainNibFile~ipad"@)->0) is Some,
            !(device_family == Some(DeviceFamily::iPad) && self.entry("NSMainNibFile~ipad"@) is Some)
                ==> string_or_absent(self.entry("NSMainNibFile"@)),
        ensures
            device_family == Some(DeviceFamily::iPad) && self.entry("NSMainNibFile~ipad"@) is Some
                ==> (r matches Some(s) && as_string(self.entry("NSMainNibFile~ipad"@)->0) == Some(s@)),
            !(device_family == Some(DeviceFamily::iPad) && self.entry("NSMainNibFile~ipad"@) is Some) ==> match r {
                Some(s) => self.entry("NSMainNibFile"@) matches Some(v) && as_string(v) == Some(s@),
                None => self.entry("NSMainNibFile"@) is None,
            },
    {
        if let Some(DeviceFamily::iPad) = device_family {
            if let Some(v) = plist_lookup(&self.plist, "NSMainNibFile~ipad") {
                return value_string(v);
            }
        }
        self.string_entry("NSMainNibFile")
    }

    /// `r` is the launch image chosen with `file_exists`: the first candidate
    /// for `f` it finds, or `Default.png` if it finds none.
    pub open spec fn launch_image_choice<E: Fn(&str) -> bool>(&self, file_exists: E, f: DeviceFamily, r: Seq<char>) -> bool {
        ||| (exists|k: int| 0 <= k < launch_suffixes(f).len() && r == self.launch_candidate(f, k)
            && answered(file_exists, self.launch_candidate(f, k), true)
            && forall|j: int| 0 <= j < k ==> answered(file_exists, #[trigger] self.launch_candidate(f, j), false))
        ||| (r == path_join(self.path(), "Default.png"@) && forall|j: int| 0 <= j < launch_suffixes(f).len()
            ==> answered(file_exists, #[trigger] self.launch_candidate(f, j), false))
    }

    /// The launch image: the first of the candidates for `device_family`
    /// (see [Self::launch_candidate]) that `file_exists` finds, else
    /// `Default.png` in the bundle.
    pub fn launch_image_path<E: Fn(&str) -> bool>(&self, file_exists: &E, device_family: DeviceFamily) -> (r: String)
        requires
            forall|s: &str| file_exists.requires((s,)),
            string_or_absent(self.entry("UILaunchImageFile"@)),
        ensures
            self.launch_image_choice(*file_exists, device_family, r@),
    {
        let base = match self.string_entry("UILaunchImageFile") {
            Some(b) => b,
            None => "Default",
        };
        assert(base@ == self.launch_base());
        let count: usize = match device_family {
            DeviceFamily::iPhone5 => 3,
            DeviceFamily::iPad => 3,
            DeviceFamily::iPhone => 2,
        };
        let mut k: usize = 0;
        while k < count
            invariant
                count == launch_suffixes(device_family).len(),
                k <= count,
                base@ == self.launch_base(),
                forall|s: &str| file_exists.requires((s,)),
                forall|j: int| 0 <= j < k ==> answered(*file_exists, #[trigger] self.launch_candidate(device_family, j), false),
            decreases count - k,
        {
            let name = concat(base, launch_suffix(device_family, k));
            let path = join(self.path.as_str(), name.as_str());
            let p = path.as_str();
            let found = file_exists(p);
            assert(answered(*file_exists, self.launch_candidate(device_family, k as int), found));
            if found {
                return path;
            }
            k = k + 1;
        }
        join(self.path.as_str(), "Default.png")
    }

    /// `UIRequiredDeviceCapabilities`: the keys of a dictionary or the
    /// strings of an array; none otherwise.
    pub fn required_device_capabilities(&self) -> (r: Vec<&str>)
        ensures
            str_views(r@) == match self.entry("UIRequiredDeviceCapabilities"@) {
                Some(v) => capability_names(v),
                None => Seq::empty(),
            },
    {
        let mut r: Vec<&str> = Vec::new();
        match plist_lookup(&self.plist, "UIRequiredDeviceCapabilities") {
            Some(PlistValue::Dictionary(es)) => {
                let mut i: usize = 0;
                while i < es.len()
                    invariant
                        i <= es@.len(),
                        r@.len() == i,
                        str_views(r@) == Seq::new(i as nat, |j: int| es@[j].0@),
                    decreases es@.len() - i,
                {
                    let ghost before = r@;
                    let k = es[i].0.as_str();
                    r.push(k);
                    assert forall|j: int| 0 <= j < i + 1 implies #[trigger] str_views(r@)[j] == es@[j].0@ by {
                        if j < i {
                            assert(r@[j] == before[j]);
                            assert(str_views(before)[j] == before[j]@);
                        }
                    }
                    assert(str_views(r@) =~= Seq::new((i + 1) as nat, |j: int| es@[j].0@));
                    i = i + 1;
                }
            },
            Some(PlistValue::Array(items)) => {
                let mut i: usize = 0;
                assert(str_views(r@) =~= strings_of(items@.take(0)));
                while i < items.len()
                    invariant
                        i <= items@.len(),
                        str_views(r@) == strings_of(items@.take(i as int)),
                    decreases items@.len() - i,
                {
                    assert(items@.take(i + 1).drop_last() =~= items@.take(i as int));
                    let ghost before = str_views(r@);
                    if let Some(s) = value_string(&items[i]) {
                        r.push(s);
                        assert(str_views(r@) =~= before.push(s@));
                    }
                    i = i + 1;
                }
                assert(items@.take(items@.len() as int) =~= items@);
            },
            Some(_) => {
                assert(str_views(r@) =~= Seq::empty());
            },
            None => {
                assert(str_views(r@) =~= Seq::empty());
            },
        }
        r
    }

    /// The orientations the app supports: `UISupportedInterfaceOrientations`
    /// (an array, each item a string or taken as portrait; or a string cut at
    /// commas; portrait for anything else), else `UIInterfaceOrientation` cut
    /// at commas, else portrait.
    pub fn supported_interface_orientations(&self) -> (r: Vec<String>)
        ensures
            string_views(r@) == match self.entry("UISupportedInterfaceOrientations"@) {
                Some(PlistValue::Array(items)) => Seq::new(items@.len(), |i: int| string_or_portrait(items@[i])),
                Some(PlistValue::String(s)) => split_commas(s@),
                Some(_) => seq![portrait_name()],
                None => match self.entry("UIInterfaceOrientation"@) {
                    Some(v) => split_commas(string_or_portrait(v)),
                    None => seq![portrait_name()],
                },
            },
    {
        match plist_lookup(&self.plist, "UISupportedInterfaceOrientations") {
            Some(PlistValue::Array(items)) => {
                let mut r: Vec<String> = Vec::new();
                let mut i: usize = 0;
                while i < items.len()
                    invariant
                        i <= items@.len(),
                        r@.len() == i,
                        string_views(r@) == Seq::new(i as nat, |j: int| string_or_portrait(items@[j])),
                    decreases items@.len() - i,
                {
                    let s = match value_string(&items[i]) {
                        Some(s) => s,
                        None => "UIInterfaceOrientationPortrait",
                    };
                    let ghost before = r@;
                    let owned = s.to_owned();
                    assert(owned@ == string_or_portrait(items@[i as int]));
                    r.push(owned);
                    assert forall|j: int| 0 <= j < i + 1 implies #[trigger] string_views(r@)[j] == string_or_portrait(items@[j]) by {
                        if j < i {
                            assert(r@[j] == before[j]);
                            assert(string_views(before)[j] == before[j]@);
                        }
                    }
                    assert(string_views(r@) =~= Seq::new((i + 1) as nat, |j: int| string_or_portrait(items@[j])));
                    i = i + 1;
                }
                r
            },
            Some(PlistValue::String(s)) => split_at_commas(s.as_str()),
            Some(_) => {
                let mut r: Vec<String> = Vec::new();
                r.push("UIInterfaceOrientationPortrait".to_owned());
                assert(string_views(r@) =~= seq![portrait_name()]);
                r
            },
            None => match plist_lookup(&self.plist, "UIInterfaceOrientation") {
                Some(v) => {
                    let s = match value_string(v) {
                        Some(s) => s,
                        None => "UIInterfaceOrientationPortrait",
                    };
                    split_at_commas(s)
                },
                None => {
                    let mut r: Vec<String> = Vec::new();
                    r.push("UIInterfaceOrientationPortrait".to_owned());
                    assert(string_views(r@) =~= seq![portrait_name()]);
                    r
                },
            },
        }
    }

    /// The device families of `UIDeviceFamily` (an array of integers, those
    /// that name no family left out); the iPhone if it is absent or not an
    /// array.
    pub fn device_family_array(&self) -> (r: Vec<DeviceFamily>)
        ensures
            r@ == match self.entry("UIDeviceFamily"@) {
                Some(PlistValue::Array(items)) => families_of(items@),
                _ => seq![DeviceFamily::iPhone],
            },
    {
        match plist_lookup(&self.plist, "UIDeviceFamily") {
            Some(PlistValue::Array(items)) => {
                let mut r: Vec<DeviceFamily> = Vec::new();
                let mut i: usize = 0;
                assert(r@ =~= families_of(items@.take(0)));
                while i < items.len()
                    invariant
                        i <= items@.len(),
                        r@ == families_of(items@.take(i as int)),
                    decreases items@.len() - i,
                {
                    assert(items@.take(i + 1).drop_last() =~= items@.take(i as int));
                    if let PlistValue::Integer(n) = &items[i] {
                        if 0 <= *n && *n <= 0xffff_ffff_ffff_ffff {
                            if let Ok(f) = DeviceFamily::try_from_u64(*n as u64) {
                                r.push(f);
                            }
                        }
                    }
                    i = i + 1;
                }
                assert(items@.take(items@.len() as int) =~= items@);
                r
            },
            _ => {
                let mut r: Vec<DeviceFamily> = Vec::new();
                r.push(DeviceFamily::iPhone);
                r
            },
        }
    }
}


/// The value of the decimal digits `ds`.
pub open spec fn decimal_value(ds: Seq<char>) -> int
    decreases ds.len(),
{
    if ds.len() == 0 {
        0
    } else {
        10 * decimal_value(ds.drop_last()) + (ds.last() as int - '0' as int)
    }
}

pub open spec fn all_digits(ds: Seq<char>) -> bool {
    forall|i: int| 0 <= i < ds.len() ==> '0' <= #[trigger] ds[i] <= '9'
}

/// What `u32::from_str` makes of `s`: an optional `+`, then at least one
/// decimal digit, with a value that fits.
pub open spec fn parse_u32_spec(s: Seq<char>) -> Option<u32> {
    let t = if s.len() > 0 && s[0] == '+' { s.drop_first() } else { s };
    if t.len() > 0 && all_digits(t) && decimal_value(t) <= u32::MAX {
        Some(decimal_value(t) as u32)
    } else {
        None
    }
}

proof fn lemma_decimal_value_nonneg(ds: Seq<char>)
    requires
        all_digits(ds),
    ensures
        decimal_value(ds) >= 0,
    decreases ds.len(),
{
    if ds.len() > 0 {
        lemma_decimal_value_nonneg(ds.drop_last());
    }
}

/// `s` as a `u32`, as `u32::from_str` reads it.
fn parse_u32(s: &[char]) -> (r: Option<u32>)
    ensures
        r == parse_u32_spec(s@),
{
    let start: usize = if s.len() > 0 && s[0] == '+' { 1 } else { 0 };
    let ghost t = if s@.len() > 0 && s@[0] == '+' { s@.drop_first() } else { s@ };
    assert(t =~= s@.subrange(start as int, s@.len() as int));
    if start >= s.len() {
        return None;
    }
    let mut value: u64 = 0;
    let mut i = start;
    while i < s.len()
        invariant
            start <= i <= s@.len(),
            start < s@.len(),
            t == s@.subrange(start as int, s@.len() as int),
            t == (if s@.len() > 0 && s@[0] == '+' { s@.drop_first() } else { s@ }),
            all_digits(s@.subrange(start as int, i as int)),
            value == decimal_value(s@.subrange(start as int, i as int)),
            value <= u32::MAX,
        decreases s@.len() - i,
    {
        let c = s[i];
        if !('0' <= c && c <= '9') {
            proof {
                assert(t[i - start] == c);
                assert(!all_digits(t));
            }
            return None;
        }
        let ghost prefix = s@.subrange(start as int, i + 1);
        assert(prefix.drop_last() =~= s@.subrange(start as int, i as int));
        assert(prefix.last() == c);
        let digit = (c as u32 - '0' as u32) as u64;
        value = value * 10 + digit;
        assert(all_digits(prefix)) by {
            assert forall|j: int| 0 <= j < prefix.len() implies '0' <= #[trigger] prefix[j] <= '9' by {
                if j < prefix.len() - 1 {
                    assert(prefix[j] == s@.subrange(start as int, i as int)[j]);
                }
            }
        }
        assert(value == decimal_value(prefix));
        if value > 0xffff_ffff {
            proof {
                lemma_decimal_value_grows(t, i + 1 - start);
                assert(t.subrange(0, i + 1 - start) =~= prefix);
                if all_digits(t) {
                    assert(decimal_value(t) > u32::MAX);
                }
            }
            return None;
        }
        i = i + 1;
    }
    proof {
        assert(s@.subrange(start as int, s@.len() as int) =~= t);
    }
    Some(value as u32)
}

proof fn lemma_decimal_value_grows(ds: Seq<char>, k: int)
    requires
        0 <= k <= ds.len(),
    ensures
        all_digits(ds) ==> decimal_value(ds.subrange(0, k)) <= decimal_value(ds),
    decreases ds.len() - k,
{
    if all_digits(ds) {
        if k == ds.len() {
            assert(ds.subrange(0, k) =~= ds);
        } else {
            lemma_decimal_value_grows(ds, k + 1);
            let p = ds.subrange(0, k + 1);
            let q = ds.subrange(0, k);
            assert(p.drop_last() =~= q);
            assert(p.last() == ds[k]);
            assert('0' <= ds[k] <= '9');
            assert(all_digits(q)) by {
                assert forall|i: int| 0 <= i < k implies '0' <= #[trigger] q[i] <= '9' by {
                    assert(q[i] == ds[i]);
                }
            }
            lemma_decimal_value_nonneg(q);
            assert(decimal_value(p) == 10 * decimal_value(q) + (ds[k] as int - '0' as int));
        }
    }
}

fn find_dot(s: &[char], from: usize) -> (r: Option<usize>)
    requires
        from <= s@.len(),
    ensures
        r matches Some(i) ==> from <= i < s@.len() && s@[i as int] == '.' && forall|j: int| from <= j < i ==> s@[j] != '.',
        r is None ==> forall|j: int| from <= j < s@.len() ==> s@[j] != '.',
{
    let mut i = from;
    while i < s.len()
        invariant
            from <= i <= s@.len(),
            forall|j: int| from <= j < i ==> s@[j] != '.',
        decreases s@.len() - i,
    {
        if s[i] == '.' {
            return Some(i);
        }
        i = i + 1;
    }
    None
}

/// The major version of `version` (before the first dot) and the minor one
/// (after it, up to the next dot), as the bundle checks them.
pub open spec fn version_parts(version: Seq<char>, d1: int) -> (Seq<char>, Seq<char>) {
    let rest = version.subrange(d1 + 1, version.len() as int);
    let minor = if exists|j: int| 0 <= j < rest.len() && rest[j] == '.' {
        let d2 = choose|j: int| 0 <= j < rest.len() && rest[j] == '.' && forall|k: int| 0 <= k < j ==> rest[k] != '.';
        rest.subrange(0, d2)
    } else {
        rest
    };
    (version.subrange(0, d1), minor)
}

/// Whether the version has the form the bundle check reads: a dot after
/// the major version, and major and minor versions that parse.
pub open spec fn version_well_formed(version: Seq<char>) -> bool {
    exists|d1: int| 0 <= d1 < version.len() && version[d1] == '.' && (forall|k: int| 0 <= k < d1 ==> version[k] != '.')
        && parse_u32_spec(version_parts(version, d1).0) is Some && parse_u32_spec(version_parts(version, d1).1) is Some
}

/// Whether an app needing `MinimumOSVersion` `version` needs more than iOS
/// 6.0, which is as far as apps are supported (the caller warns).
pub fn os_version_unsupported(version: &str) -> (r: bool)
    requires
        version_well_formed(version@),
    ensures
        ({
            let d1 = choose|d1: int| 0 <= d1 < version@.len() && version@[d1] == '.' && (forall|k: int| 0 <= k < d1 ==> version@[k] != '.')
                && parse_u32_spec(version_parts(version@, d1).0) is Some && parse_u32_spec(version_parts(version@, d1).1) is Some;
            let major = parse_u32_spec(version_parts(version@, d1).0)->0;
            let minor = parse_u32_spec(version_parts(version@, d1).1)->0;
            r == (major > 6 || (major == 6 && minor > 0))
        }),
{
    let cs = chars_of(version);
    let ghost v = version@;
    let ghost w = choose|d1: int| 0 <= d1 < v.len() && v[d1] == '.' && (forall|k: int| 0 <= k < d1 ==> v[k] != '.')
        && parse_u32_spec(version_parts(v, d1).0) is Some && parse_u32_spec(version_parts(v, d1).1) is Some;
    let d1 = find_dot(cs.as_slice(), 0).unwrap();
    assert(d1 == w) by {
        if (d1 as int) < w {
            assert(v[d1 as int] == '.');
        } else if w < d1 {
            assert(v[w] == '.');
        }
    }
    let major_chars = crate::text::copy_range(cs.as_slice(), 0, d1);
    let n = cs.len();
    let d2 = find_dot(cs.as_slice(), d1 + 1);
    let minor_end = match d2 {
        Some(j) => j,
        None => n,
    };
    let minor_chars = crate::text::copy_range(cs.as_slice(), d1 + 1, minor_end);
    proof {
        let rest = v.subrange(d1 + 1, v.len() as int);
        match d2 {
            Some(j) => {
                let k = j - d1 - 1;
                assert(rest[k] == '.');
                let c = choose|c: int| 0 <= c < rest.len() && rest[c] == '.' && forall|m: int| 0 <= m < c ==> rest[m] != '.';
                assert(c == k) by {
                    if c < k {
                        assert(v[d1 + 1 + c] == rest[c]);
                    } else if k < c {
                        assert(rest[k] == '.');
                    }
                }
                assert(minor_chars@ =~= rest.subrange(0, k));
            },
            None => {
                assert forall|j: int| 0 <= j < rest.len() implies rest[j] != '.' by {
                    assert(rest[j] == v[d1 + 1 + j]);
                }
                assert(minor_chars@ =~= rest);
            },
        }
        assert(major_chars@ =~= v.subrange(0, d1 as int));
    }
    let major = parse_u32(major_chars.as_slice()).unwrap();
    let minor = parse_u32(minor_chars.as_slice()).unwrap();
    major > 6 || (major == 6 && minor > 0)
}

} // verus!

verus! {

#[verifier::external_type_specification]
#[verifier::external_body]
pub struct ExPlistValue(plist::Value);

/// What `plist::Value::from_reader` reads from `bytes`: `None` when the
/// bytes are no property list; else the entries of the root dictionary, in
/// the file's order, or `None` when the root is not a dictionary.
pub uninterp spec fn plist_root_entries(bytes: Seq<u8>) -> Option<Option<Seq<(String, PlistValue)>>>;

/// Trusted: converts a `plist::Value` into the library's model, variant by
/// variant (an integer by the `i64` or `u64` that `plist::Integer` holds;
/// data, dates, reals and UIDs as `Other`). Nothing is claimed of it on its
/// own: [parse_plist_root] names the whole result.
#[verifier::external_body]
fn plist_value_of(v: &plist::Value) -> PlistValue {
    match v {
        plist::Value::Array(items) => PlistValue::Array(items.iter().map(plist_value_of).collect()),
        plist::Value::Dictionary(d) => PlistValue::Dictionary(d.iter().map(|(k, v)| (k.clone(), plist_value_of(v))).collect()),
        plist::Value::Boolean(b) => PlistValue::Boolean(*b),
        plist::Value::Integer(i) => match (i.as_signed(), i.as_unsigned()) {
            (Some(s), _) => PlistValue::Integer(s as i128),
            (None, Some(u)) => PlistValue::Integer(u as i128),
            (None, None) => PlistValue::Other,
        },
        plist::Value::String(s) => PlistValue::String(s.clone()),
        _ => PlistValue::Other,
    }
}

/// Trusted: wraps `plist::Value::from_reader` and `Value::into_dictionary`.
/// Claims only that the result is [plist_root_entries] of the bytes.
#[verifier::external_body]
fn parse_plist_root(bytes: &[u8]) -> (r: Option<Option<Vec<(String, PlistValue)>>>)
    ensures
        match r {
            None => plist_root_entries(bytes@) is None,
            Some(None) => plist_root_entries(bytes@) == Some(None::<Seq<(String, PlistValue)>>),
            Some(Some(v)) => plist_root_entries(bytes@) == Some(Some(v@)),
        },
{
    match plist::Value::from_reader(std::io::Cursor::new(bytes)) {
        Err(_) => None,
        Ok(value) => Some(value.into_dictionary().map(|d| d.iter().map(|(k, v)| (k.clone(), plist_value_of(v))).collect())),
    }
}

/// The keys of `Info.plist` whose values the bundle reads as strings.
pub open spec fn string_keys() -> Seq<Seq<char>> {
    seq![
        "CFBundleIdentifier"@,
        "CFBundleVersion"@,
        "CFBundleName"@,
        "CFBundleDisplayName"@,
        "CFBundleExecutable"@,
        "CFBundleIconFile"@,
        "MinimumOSVersion"@,
        "UILaunchImageFile"@,
        "NSMainNibFile"@,
        "NSMainNibFile~ipad"@,
    ]
}

/// The `i`th of [string_keys].
fn string_key(i: usize) -> (r: &'static str)
    requires
        i < 10,
    ensures
        r@ == string_keys()[i as int],
{
    match i {
        0 => "CFBundleIdentifier",
        1 => "CFBundleVersion",
        2 => "CFBundleName",
        3 => "CFBundleDisplayName",
        4 => "CFBundleExecutable",
        5 => "CFBundleIconFile",
        6 => "MinimumOSVersion",
        7 => "UILaunchImageFile",
        8 => "NSMainNibFile",
        _ => "NSMainNibFile~ipad",
    }
}

/// Entries that a bundle can be made of: each of [string_keys] is a string
/// where present, and `CFBundleIdentifier` is present.
pub open spec fn bundle_entries_ok(entries: Seq<(String, PlistValue)>) -> bool {
    &&& forall|i: int| 0 <= i < 10 ==> string_or_absent(#[trigger] plist_get(entries, string_keys()[i]))
    &&& plist_get(entries, "CFBundleIdentifier"@) is Some
}

/// The name of the bundle: `CFBundleName`, or else the name of its
/// directory.
pub open spec fn bundle_name(entries: Seq<(String, PlistValue)>, dir_name: Seq<char>) -> Seq<char> {
    match plist_get(entries, "CFBundleName"@) {
        Some(v) => as_string(v)->0,
        None => dir_name,
    }
}

/// The bundle whose `Info.plist` holds `bytes`, placed under `guest_dir`
/// and named after `CFBundleName` (or `dir_name`, the name of its
/// directory). Fails when the bytes are no property list, when the root is
/// not a dictionary, when a key read as a string holds something else, and
/// when `CFBundleIdentifier` is missing.
pub fn bundle_from_plist_bytes(bytes: &[u8], dir_name: &str, guest_dir: &str) -> (r: Result<Bundle, String>)
    ensures
        r is Ok <==> (plist_root_entries(bytes@) matches Some(Some(e)) && bundle_entries_ok(e)),
        r matches Ok(b) ==> plist_root_entries(bytes@) == Some(Some(b.entries())) && b.path()
            == guest_dir@ + "/"@ + bundle_name(b.entries(), dir_name@) + ".app"@,
{
    let entries = match parse_plist_root(bytes) {
        None => return Err(String::from_str("Could not deserialize plist data")),
        Some(None) => return Err(String::from_str("plist root value is not a dictionary")),
        Some(Some(e)) => e,
    };
    let mut i: usize = 0;
    while i < 10
        invariant
            i <= 10,
            plist_root_entries(bytes@) == Some(Some(entries@)),
            forall|j: int| 0 <= j < i ==> string_or_absent(#[trigger] plist_get(entries@, string_keys()[j])),
        decreases 10 - i,
    {
        let key = string_key(i);
        match plist_lookup(&entries, key) {
            Some(v) => {
                if value_string(v).is_none() {
                    assert(!string_or_absent(plist_get(entries@, string_keys()[i as int])));
                    assert(!bundle_entries_ok(entries@));
                    return Err(String::from_str("a key read as a string holds another value"));
                }
            },
            None => {},
        }
        i = i + 1;
    }
    if plist_lookup(&entries, "CFBundleIdentifier").is_none() {
        assert(!bundle_entries_ok(entries@));
        return Err(String::from_str("CFBundleIdentifier is missing"));
    }
    let name: &str = match plist_lookup(&entries, "CFBundleName") {
        Some(v) => {
            assert(string_or_absent(plist_get(entries@, string_keys()[2])));
            value_string(v).unwrap()
        },
        None => dir_name,
    };
    let with_slash = concat(guest_dir, "/");
    let with_name = concat(with_slash.as_str(), name);
    let path = concat(with_name.as_str(), ".app");
    Ok(Bundle::new(path, entries))
}

} // verus!

verus! {

/// The launch image tried first: the 4-inch one (`-568h@2x`) for the
/// iPhone 5, the retina iPad one for the iPad, the retina one for the
/// iPhone.
pub open spec fn best_launch_image(f: DeviceFamily) -> Seq<char> {
    match f {
        DeviceFamily::iPhone5 => "-568h@2x.png"@,
        DeviceFamily::iPad => "@2x~ipad.png"@,
        DeviceFamily::iPhone => "@2x.png"@,
    }
}

/// Where the best launch image for the family exists, it is the one chosen,
/// whatever other images exist (given that `file_exists` answers the same
/// question the same way).
pub proof fn lemma_best_launch_image_chosen<E: Fn(&str) -> bool>(b: Bundle, file_exists: E, f: DeviceFamily, r: Seq<char>)
    requires
        b.launch_image_choice(file_exists, f, r),
        answered(file_exists, path_join(b.path(), b.launch_base() + best_launch_image(f)), true),
        forall|p: Seq<char>| !(answered(file_exists, p, true) && answered(file_exists, p, false)),
    ensures
        r == path_join(b.path(), b.launch_base() + best_launch_image(f)),
{
    assert(launch_suffixes(f)[0] == best_launch_image(f));
    assert(b.launch_candidate(f, 0) == path_join(b.path(), b.launch_base() + best_launch_image(f)));
    let c0 = b.launch_candidate(f, 0);
    assert(!answered(file_exists, c0, false));
    if exists|k: int| 0 <= k < launch_suffixes(f).len() && r == b.launch_candidate(f, k)
        && answered(file_exists, b.launch_candidate(f, k), true)
        && forall|j: int| 0 <= j < k ==> answered(file_exists, #[trigger] b.launch_candidate(f, j), false) {
        let k = choose|k: int| 0 <= k < launch_suffixes(f).len() && r == b.launch_candidate(f, k)
            && answered(file_exists, b.launch_candidate(f, k), true)
            && forall|j: int| 0 <= j < k ==> answered(file_exists, #[trigger] b.launch_candidate(f, j), false);
        if k > 0 {
            assert(answered(file_exists, b.launch_candidate(f, 0), false));
        }
    } else {
        assert(answered(file_exists, b.launch_candidate(f, 0), false));
    }
}

} // verus!
