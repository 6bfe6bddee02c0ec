//! The object graph of a project document, built from a stream of XML
//! events: elements with identities in two namespaces, the references between
//! them, their child texts, and the media file paths found.

use vstd::prelude::*;
use vstd::hash_map::StringHashMap;
use crate::text::{parse_i64, decimal, chars_of, contains_chars, fmt_u64, has_suffix, lower_of, lowercase, string_of, append_str, contains_seq, ends_with, str_eq};

verus! {

broadcast use vstd::string::group_string_axioms;

/// One attribute of an element.
#[derive(Debug, Clone)]
pub struct Attribute {
    pub key: String,
    pub value: String,
}

/// The name and attributes of a start or empty tag.
#[derive(Debug, Clone)]
pub struct Element {
    pub tag: String,
    pub attrs: Vec<Attribute>,
}

/// An XML event, with names and texts as plain strings.
#[derive(Debug, Clone)]
pub enum XmlEvent {
    Start(Element),
    Empty(Element),
    End,
    Text(String),
    Eof,
    /// Comments, declarations and other events the loader skips.
    Other,
    /// A syntax error at this point of the document.
    Malformed,
}

/// An element that declared an `ObjectID` and/or an `ObjectUID`.
#[derive(Debug, Clone)]
pub struct XmlObject {
    pub tag: String,
    pub object_id: Option<String>,
    pub object_uid: Option<String>,
    pub attributes: Vec<Attribute>,
}

/// A reference from an identified element, carried by a child element with
/// tag `child_tag`, to `target` in the GUID namespace when `is_guid`, else in
/// the numeric one.
#[derive(Debug, Clone)]
pub struct Reference {
    pub child_tag: String,
    pub target: String,
    pub is_guid: bool,
}

/// The identity of an open element.
#[derive(Debug, Clone)]
pub struct Context {
    pub id: Option<String>,
    pub uid: Option<String>,
}

/// The graph built so far, and the stacks of open elements.
pub struct ParserState {
    pub current_element: Vec<String>,
    pub context_stack: Vec<Context>,
    /// Every identified element, in document order.
    pub objects: Vec<XmlObject>,
    /// Positions in `objects` of the elements with each numeric id; ids are
    /// reused across tags, so one id may name several elements.
    pub objects_by_id: StringHashMap<Vec<usize>>,
    /// Position in `objects` of the element with each GUID.
    pub objects_by_uid: StringHashMap<usize>,
    /// The GUIDs of `objects_by_uid`, in order of first appearance.
    pub uid_keys: Vec<String>,
    /// The numeric ids of `objects_by_id`, in order of first appearance.
    pub id_keys: Vec<String>,
    pub refs: Vec<Reference>,
    /// Positions in `refs` of the references stored under each numeric id.
    pub refs_from_id: StringHashMap<Vec<usize>>,
    /// Positions in `refs` of the references stored under each GUID.
    pub refs_from_uid: StringHashMap<Vec<usize>>,
    /// Texts of child elements, keyed by `child_key(position, tag)`.
    pub child_texts: StringHashMap<Vec<String>>,
    /// Tags of the children with text of each object, keyed by its position
    /// in decimal.
    pub child_tags: StringHashMap<Vec<String>>,
    /// Media file path found inside each identified element.
    pub media_paths: StringHashMap<String>,
    /// The keys of `media_paths`, in order of first appearance.
    pub media_keys: Vec<String>,
    /// The `Version` attribute of the root element.
    pub version: u32,
}

pub open spec fn key_set(v: Seq<String>) -> Set<Seq<char>> {
    Set::new(|x: Seq<char>| exists|i: int| 0 <= i < v.len() && (#[trigger] v[i])@ == x)
}

pub open spec fn distinct(v: Seq<String>) -> bool {
    forall|i: int, j: int| 0 <= i < j < v.len() ==> v[i]@ != v[j]@
}

pub open spec fn indices_below(v: Seq<usize>, n: int) -> bool {
    forall|j: int| 0 <= j < v.len() ==> v[j] < n
}

impl ParserState {
    /// Every stored position is in range, and each key list lists its map's
    /// keys once each.
    pub open spec fn wf(&self) -> bool {
        &&& forall|k: Seq<char>| #[trigger] self.objects_by_id@.contains_key(k) ==> indices_below(self.objects_by_id@[k]@, self.objects@.len() as int)
        &&& forall|k: Seq<char>| #[trigger] self.objects_by_uid@.contains_key(k) ==> self.objects_by_uid@[k] < self.objects@.len()
        &&& forall|k: Seq<char>| #[trigger] self.refs_from_id@.contains_key(k) ==> indices_below(self.refs_from_id@[k]@, self.refs@.len() as int)
        &&& forall|k: Seq<char>| #[trigger] self.refs_from_uid@.contains_key(k) ==> indices_below(self.refs_from_uid@[k]@, self.refs@.len() as int)
        &&& self.objects_by_uid@.dom() == key_set(self.uid_keys@)
        &&& distinct(self.uid_keys@)
        &&& self.objects_by_id@.dom() == key_set(self.id_keys@)
        &&& distinct(self.id_keys@)
        &&& self.media_paths@.dom() == key_set(self.media_keys@)
        &&& distinct(self.media_keys@)
    }

    /// An empty graph.
    pub fn new() -> (r: ParserState)
        ensures
            r.wf(),
            r.context_stack@.len() == 0,
            r.current_element@.len() == 0,
            r.objects@.len() == 0,
            r.media_paths@ == Map::<Seq<char>, String>::empty(),
    {
        let r = ParserState {
            current_element: Vec::new(),
            context_stack: Vec::new(),
            objects: Vec::new(),
            objects_by_id: StringHashMap::new(),
            objects_by_uid: StringHashMap::new(),
            uid_keys: Vec::new(),
            id_keys: Vec::new(),
            refs: Vec::new(),
            refs_from_id: StringHashMap::new(),
            refs_from_uid: StringHashMap::new(),
            child_texts: StringHashMap::new(),
            child_tags: StringHashMap::new(),
            media_paths: StringHashMap::new(),
            media_keys: Vec::new(),
            version: 0,
        };
        assert(key_set(r.uid_keys@) =~= Set::empty());
        assert(key_set(r.id_keys@) =~= Set::empty());
        assert(key_set(r.media_keys@) =~= Set::empty());
        r
    }
}

// ---------------------------------------------------------------------------
// The context stack
// ---------------------------------------------------------------------------
/// The nearest entry, from the top, that has a numeric id or a GUID.
pub open spec fn nearest_identified(s: Seq<Context>) -> Option<Context>
    decreases s.len(),
{
    if s.len() == 0 {
        None
    } else if s.last().id.is_some() || s.last().uid.is_some() {
        Some(s.last())
    } else {
        nearest_identified(s.drop_last())
    }
}

/// The nearest numeric id, from the top.
pub open spec fn nearest_id(s: Seq<Context>) -> Option<String>
    decreases s.len(),
{
    if s.len() == 0 {
        None
    } else if s.last().id.is_some() {
        s.last().id
    } else {
        nearest_id(s.drop_last())
    }
}

/// The nearest GUID, from the top.
pub open spec fn nearest_uid(s: Seq<Context>) -> Option<String>
    decreases s.len(),
{
    if s.len() == 0 {
        None
    } else if s.last().uid.is_some() {
        s.last().uid
    } else {
        nearest_uid(s.drop_last())
    }
}

proof fn lemma_nearest_identified(s: Seq<Context>)
    ensures
        nearest_identified(s) matches Some(c) ==> c.id.is_some() || c.uid.is_some(),
    decreases s.len(),
{
    if s.len() > 0 {
        lemma_nearest_identified(s.drop_last());
    }
}

fn copy_opt(o: &Option<String>) -> (r: Option<String>)
    ensures
        r == *o,
{
    match o {
        Some(s) => Some(s.clone()),
        None => None,
    }
}

fn copy_context(c: &Context) -> (r: Context)
    ensures
        r == *c,
{
    Context { id: copy_opt(&c.id), uid: copy_opt(&c.uid) }
}

/// The nearest identified entry among the first `n` entries of the stack.
pub fn nearest_identified_below(s: &Vec<Context>, n: usize) -> (r: Option<Context>)
    requires
        n <= s@.len(),
    ensures
        r == nearest_identified(s@.subrange(0, n as int)),
{
    let mut i: usize = n;
    while i > 0
        invariant
            i <= n <= s@.len(),
            nearest_identified(s@.subrange(0, n as int)) == nearest_identified(s@.subrange(0, i as int)),
        decreases i,
    {
        assert(s@.subrange(0, i as int).drop_last() =~= s@.subrange(0, i - 1));
        assert(s@.subrange(0, i as int).last() == s@[i - 1]);
        if s[i - 1].id.is_some() || s[i - 1].uid.is_some() {
            return Some(copy_context(&s[i - 1]));
        }
        i = i - 1;
    }
    None
}

impl ParserState {
    /// The nearest enclosing element with an identity.
    pub fn current_context(&self) -> (r: Option<Context>)
        ensures
            r == nearest_identified(self.context_stack@),
    {
        assert(self.context_stack@.subrange(0, self.context_stack@.len() as int) =~= self.context_stack@);
        nearest_identified_below(&self.context_stack, self.context_stack.len())
    }

    /// The nearest enclosing numeric id.
    pub fn current_object_id(&self) -> (r: Option<String>)
        ensures
            r == nearest_id(self.context_stack@),
    {
        let s = &self.context_stack;
        let mut i: usize = s.len();
        assert(s@.subrange(0, i as int) =~= s@);
        while i > 0
            invariant
                i <= s@.len(),
                s@ == self.context_stack@,
                nearest_id(s@) == nearest_id(s@.subrange(0, i as int)),
            decreases i,
        {
            assert(s@.subrange(0, i as int).drop_last() =~= s@.subrange(0, i - 1));
            assert(s@.subrange(0, i as int).last() == s@[i - 1]);
            if s[i - 1].id.is_some() {
                assert(nearest_id(s@.subrange(0, i as int)) == s@[i - 1].id);
                return copy_opt(&s[i - 1].id);
            }
            i = i - 1;
        }
        None
    }

    /// The nearest enclosing GUID.
    pub fn current_object_uid(&self) -> (r: Option<String>)
        ensures
            r == nearest_uid(self.context_stack@),
    {
        let s = &self.context_stack;
        let mut i: usize = s.len();
        assert(s@.subrange(0, i as int) =~= s@);
        while i > 0
            invariant
                i <= s@.len(),
                s@ == self.context_stack@,
                nearest_uid(s@) == nearest_uid(s@.subrange(0, i as int)),
            decreases i,
        {
            assert(s@.subrange(0, i as int).drop_last() =~= s@.subrange(0, i - 1));
            assert(s@.subrange(0, i as int).last() == s@[i - 1]);
            if s[i - 1].uid.is_some() {
                assert(nearest_uid(s@.subrange(0, i as int)) == s@[i - 1].uid);
                return copy_opt(&s[i - 1].uid);
            }
            i = i - 1;
        }
        None
    }
}

// ---------------------------------------------------------------------------
// Attributes and media paths
// ---------------------------------------------------------------------------
/// The value of the first attribute named `key`.
pub open spec fn attr_of(attrs: Seq<Attribute>, key: Seq<char>) -> Option<String>
    decreases attrs.len(),
{
    if attrs.len() == 0 {
        None
    } else if attrs[0].key@ == key {
        Some(attrs[0].value)
    } else {
        attr_of(attrs.drop_first(), key)
    }
}

/// The value of the first attribute named `key`.
pub fn attr_value(attrs: &Vec<Attribute>, key: &str) -> (r: Option<String>)
    ensures
        r == attr_of(attrs@, key@),
{
    let mut i: usize = 0;
    assert(attrs@.subrange(0, attrs@.len() as int) =~= attrs@);
    while i < attrs.len()
        invariant
            i <= attrs@.len(),
            attr_of(attrs@, key@) == attr_of(attrs@.subrange(i as int, attrs@.len() as int), key@),
        decreases attrs@.len() - i,
    {
        let ghost rest = attrs@.subrange(i as int, attrs@.len() as int);
        assert(rest[0] == attrs@[i as int]);
        assert(rest.drop_first() =~= attrs@.subrange(i + 1, attrs@.len() as int));
        if str_eq(attrs[i].key.as_str(), key) {
            return Some(attrs[i].value.clone());
        }
        i = i + 1;
    }
    None
}

/// The extensions, with their dot, that mark a text as a media file path:
/// the video and audio formats, and the image, graphics and project formats
/// a project may reference.
pub open spec fn media_suffix(lower: Seq<char>) -> bool {
    ends_with(lower, ".mp4"@)
        || ends_with(lower, ".mov"@)
        || ends_with(lower, ".avi"@)
        || ends_with(lower, ".mxf"@)
        || ends_with(lower, ".mkv"@)
        || ends_with(lower, ".wmv"@)
        || ends_with(lower, ".m4v"@)
        || ends_with(lower, ".webm"@)
        || ends_with(lower, ".prores"@)
        || ends_with(lower, ".wav"@)
        || ends_with(lower, ".mp3"@)
        || ends_with(lower, ".aac"@)
        || ends_with(lower, ".aiff"@)
        || ends_with(lower, ".flac"@)
        || ends_with(lower, ".ogg"@)
        || ends_with(lower, ".m4a"@)
        || ends_with(lower, ".png"@)
        || ends_with(lower, ".jpg"@)
        || ends_with(lower, ".jpeg"@)
        || ends_with(lower, ".tiff"@)
        || ends_with(lower, ".tif"@)
        || ends_with(lower, ".aep"@)
        || ends_with(lower, ".mogrt"@)
        || ends_with(lower, ".prproj"@)
        || ends_with(lower, ".gif"@)
}

/// Whether `text`, whose lower-case form is `lower`, is the absolute path of
/// a media file: starting with `/` or a drive letter and colon, outside
/// peak-file and audio-preview caches, and ending in a media extension.
pub open spec fn media_path_text(text: Seq<char>, lower: Seq<char>) -> bool {
    &&& text.len() > 0
    &&& (text[0] == '/' || (text.len() > 1 && text[1] == ':'))
    &&& !contains_seq(text, "Peak Files"@)
    &&& !contains_seq(text, "Audio Previews"@)
    &&& !ends_with(text, ".pek"@)
    &&& !ends_with(text, ".cfa"@)
    &&& media_suffix(lower)
}

fn ends_in(s: &Vec<char>, suffix: &str) -> (r: bool)
    ensures
        r == ends_with(s@, suffix@),
{
    let p = chars_of(suffix);
    has_suffix(s, &p)
}

fn has_media_suffix(lower: &Vec<char>) -> (r: bool)
    ensures
        r == media_suffix(lower@),
{
    ends_in(lower, ".mp4")
        || ends_in(lower, ".mov")
        || ends_in(lower, ".avi")
        || ends_in(lower, ".mxf")
        || ends_in(lower, ".mkv")
        || ends_in(lower, ".wmv")
        || ends_in(lower, ".m4v")
        || ends_in(lower, ".webm")
        || ends_in(lower, ".prores")
        || ends_in(lower, ".wav")
        || ends_in(lower, ".mp3")
        || ends_in(lower, ".aac")
        || ends_in(lower, ".aiff")
        || ends_in(lower, ".flac")
        || ends_in(lower, ".ogg")
        || ends_in(lower, ".m4a")
        || ends_in(lower, ".png")
        || ends_in(lower, ".jpg")
        || ends_in(lower, ".jpeg")
        || ends_in(lower, ".tiff")
        || ends_in(lower, ".tif")
        || ends_in(lower, ".aep")
        || ends_in(lower, ".mogrt")
        || ends_in(lower, ".prproj")
        || ends_in(lower, ".gif")
}

/// Whether `text` is the absolute path of a media file; `lower` is its
/// lower-case form.
pub fn is_media_path_lower(text: &str, lower: &str) -> (r: bool)
    ensures
        r == media_path_text(text@, lower@),
{
    let t = chars_of(text);
    let l = chars_of(lower);
    if t.len() == 0 {
        return false;
    }
    let absolute = t[0] == '/' || (t.len() > 1 && t[1] == ':');
    let peak = chars_of("Peak Files");
    let previews = chars_of("Audio Previews");
    absolute && !contains_chars(&t, &peak) && !contains_chars(&t, &previews) && !ends_in(&t, ".pek") && !ends_in(
        &t,
        ".cfa",
    ) && has_media_suffix(&l)
}

/// Whether `text` is the absolute path of a media file.
pub fn is_media_path(text: &str) -> (r: bool)
    ensures
        r == media_path_text(text@, lower_of(text@)),
{
    let lower = lowercase(text);
    is_media_path_lower(text, lower.as_str())
}

// ---------------------------------------------------------------------------
// Index maps
// ---------------------------------------------------------------------------
fn copy_indices(v: &Vec<usize>) -> (r: Vec<usize>)
    ensures
        r@ == v@,
{
    let mut out: Vec<usize> = Vec::new();
    let mut i: usize = 0;
    while i < v.len()
        invariant
            i <= v@.len(),
            out@ == v@.subrange(0, i as int),
        decreases v@.len() - i,
    {
        out.push(v[i]);
        assert(v@.subrange(0, i + 1) =~= v@.subrange(0, i as int).push(v@[i as int]));
        i = i + 1;
    }
    assert(v@.subrange(0, v@.len() as int) =~= v@);
    out
}

/// The list under `key` with `idx` appended.
pub open spec fn appended(m: Map<Seq<char>, Vec<usize>>, key: Seq<char>, idx: usize) -> Seq<usize> {
    if m.contains_key(key) {
        m[key]@.push(idx)
    } else {
        seq![idx]
    }
}

/// Appends `idx` to the list under `key`.
fn append_index(m: &mut StringHashMap<Vec<usize>>, key: &String, idx: usize)
    ensures
        final(m)@.dom() == old(m)@.dom().insert(key@),
        final(m)@[key@]@ == appended(old(m)@, key@, idx),
        forall|k: Seq<char>| k != key@ && #[trigger] old(m)@.contains_key(k) ==> final(m)@[k] == old(m)@[k],
{
    let mut list: Vec<usize> = match m.get(key.as_str()) {
        Some(v) => copy_indices(v),
        None => Vec::new(),
    };
    list.push(idx);
    m.insert(key.clone(), list);
    assert(m@.dom() =~= old(m)@.dom().insert(key@));
}

proof fn lemma_key_set_push(v: Seq<String>, s: String)
    ensures
        key_set(v.push(s)) == key_set(v).insert(s@),
{
    let b = v.push(s);
    assert(b[v.len() as int] == s);
    assert forall|x| key_set(v).contains(x) implies key_set(b).contains(x) by {
        let j = choose|j: int| 0 <= j < v.len() && (#[trigger] v[j])@ == x;
        assert(b[j] == v[j]);
    }
    assert forall|x| key_set(b).contains(x) implies key_set(v).insert(s@).contains(x) by {
        let j = choose|j: int| 0 <= j < b.len() && (#[trigger] b[j])@ == x;
        if j < v.len() {
            assert(b[j] == v[j]);
        }
    }
    assert(key_set(b) =~= key_set(v).insert(s@));
}

// ---------------------------------------------------------------------------
// Elements
// ---------------------------------------------------------------------------
/// The references that an element with tag `tag` and attributes `attrs`
/// carries, once a parent is known.
pub open spec fn carried_refs(tag: String, attrs: Seq<Attribute>) -> Seq<Reference> {
    (match attr_of(attrs, "ObjectRef"@) {
        Some(t) => seq![Reference { child_tag: tag, target: t, is_guid: false }],
        None => Seq::empty(),
    }) + (match attr_of(attrs, "ObjectURef"@) {
        Some(t) => seq![Reference { child_tag: tag, target: t, is_guid: true }],
        None => Seq::empty(),
    })
}

/// `m_new` is `m_old` with `n` consecutive positions from `start` appended to
/// the list under `key`.
pub open spec fn filed_under(
    m_old: Map<Seq<char>, Vec<usize>>,
    m_new: Map<Seq<char>, Vec<usize>>,
    key: Seq<char>,
    start: int,
    n: int,
) -> bool {
    &&& forall|k: Seq<char>| k != key ==> (#[trigger] m_new.contains_key(k) == m_old.contains_key(k)) && (m_old.contains_key(k)
        ==> m_new[k] == m_old[k])
    &&& n > 0 ==> m_new.contains_key(key) && m_new[key]@ == (if m_old.contains_key(key) {
        m_old[key]@
    } else {
        Seq::empty()
    }) + Seq::new(n as nat, |i: int| (start + i) as usize)
    &&& n == 0 ==> m_new == m_old
}

/// How the references an element carries are filed: under the numeric id of
/// the nearest identified enclosing element, else under its GUID; dropped
/// when no enclosing element is identified.
pub open spec fn refs_filed(s0: ParserState, s1: ParserState, n: int) -> bool {
    match nearest_identified(s0.context_stack@) {
        Some(o) => match o.id {
            Some(p) => filed_under(s0.refs_from_id@, s1.refs_from_id@, p@, s0.refs@.len() as int, n)
                && s1.refs_from_uid@ == s0.refs_from_uid@,
            None => filed_under(s0.refs_from_uid@, s1.refs_from_uid@, o.uid.unwrap()@, s0.refs@.len() as int, n)
                && s1.refs_from_id@ == s0.refs_from_id@,
        },
        None => s1.refs_from_id@ == s0.refs_from_id@ && s1.refs_from_uid@ == s0.refs_from_uid@,
    }
}

proof fn lemma_file_twice(
    m0: Map<Seq<char>, Vec<usize>>,
    m1: Map<Seq<char>, Vec<usize>>,
    m2: Map<Seq<char>, Vec<usize>>,
    key: Seq<char>,
    start: int,
    n1: int,
    n2: int,
)
    requires
        filed_under(m0, m1, key, start, n1),
        filed_under(m1, m2, key, start + n1, n2),
        0 <= n1,
        0 <= n2,
    ensures
        filed_under(m0, m2, key, start, n1 + n2),
{
    if n1 > 0 && n2 > 0 {
        let base = if m0.contains_key(key) { m0[key]@ } else { Seq::empty() };
        assert(base + Seq::new(n1 as nat, |i: int| (start + i) as usize) + Seq::new(n2 as nat, |i: int| (start + n1 + i) as usize)
            =~= base + Seq::new((n1 + n2) as nat, |i: int| (start + i) as usize));
    }
}

/// The effect of one start or empty tag on the graph.
pub open spec fn element_effect(s0: ParserState, s1: ParserState, tag_name: String, attrs: Seq<Attribute>, is_empty: bool) -> bool {
    let id = attr_of(attrs, "ObjectID"@);
    let uid = attr_of(attrs, "ObjectUID"@);
    let identified = id.is_some() || uid.is_some();
    let carried = if nearest_identified(s0.context_stack@) is Some { carried_refs(tag_name, attrs) } else { Seq::empty() };
    &&& s1.context_stack@ == if is_empty { s0.context_stack@ } else { s0.context_stack@.push(Context { id, uid }) }
    &&& s1.objects@.len() == s0.objects@.len() + if identified { 1int } else { 0int }
    &&& forall|i: int| 0 <= i < s0.objects@.len() ==> s1.objects@[i] == s0.objects@[i]
    &&& identified ==> ({
        let o = s1.objects@.last();
        &&& o.tag == tag_name
        &&& o.object_id == id
        &&& o.object_uid == uid
        &&& o.attributes@ == attrs
    })
    &&& (uid matches Some(u) ==> s1.objects_by_uid@ == s0.objects_by_uid@.insert(u@, s0.objects@.len() as usize))
    &&& (uid is None ==> s1.objects_by_uid@ == s0.objects_by_uid@)
    &&& (id matches Some(i) ==> s1.objects_by_id@.contains_key(i@) && s1.objects_by_id@[i@]@ == appended(
        s0.objects_by_id@,
        i@,
        s0.objects@.len() as usize,
    ))
    &&& (id is None ==> s1.objects_by_id@ == s0.objects_by_id@)
    &&& s1.refs@ == s0.refs@ + carried
    &&& refs_filed(s0, s1, carried.len() as int)
    &&& s1.media_paths@ == s0.media_paths@
    &&& s1.child_texts@ == s0.child_texts@
}

proof fn lemma_element_effect_frame(a: ParserState, b: ParserState, a2: ParserState, b2: ParserState, tag: String, attrs: Seq<Attribute>, e: bool)
    requires
        element_effect(a, b, tag, attrs, e),
        a2.context_stack@ == a.context_stack@ && a2.objects@ == a.objects@ && a2.objects_by_id@ == a.objects_by_id@
            && a2.objects_by_uid@ == a.objects_by_uid@ && a2.refs@ == a.refs@ && a2.refs_from_id@ == a.refs_from_id@
            && a2.refs_from_uid@ == a.refs_from_uid@ && a2.media_paths@ == a.media_paths@ && a2.child_texts@ == a.child_texts@,
        b2.context_stack@ == b.context_stack@ && b2.objects@ == b.objects@ && b2.objects_by_id@ == b.objects_by_id@
            && b2.objects_by_uid@ == b.objects_by_uid@ && b2.refs@ == b.refs@ && b2.refs_from_id@ == b.refs_from_id@
            && b2.refs_from_uid@ == b.refs_from_uid@ && b2.media_paths@ == b.media_paths@ && b2.child_texts@ == b.child_texts@,
    ensures
        element_effect(a2, b2, tag, attrs, e),
{
}

impl ParserState {
    /// Stores reference `r` under `owner`'s numeric id if it has one, else
    /// under its GUID.
    fn store_ref(&mut self, owner: &Context, r: Reference)
        requires
            old(self).wf(),
            owner.id.is_some() || owner.uid.is_some(),
        ensures
            final(self).wf(),
            final(self).refs@ == old(self).refs@.push(r),
            final(self).objects@ == old(self).objects@,
            final(self).objects_by_id@ == old(self).objects_by_id@,
            final(self).objects_by_uid@ == old(self).objects_by_uid@,
            final(self).media_paths@ == old(self).media_paths@,
            final(self).context_stack@ == old(self).context_stack@,
            final(self).current_element@ == old(self).current_element@,
            final(self).child_texts@ == old(self).child_texts@,
            final(self).version == old(self).version,
            owner.id matches Some(p) ==> filed_under(old(self).refs_from_id@, final(self).refs_from_id@, p@, old(self).refs@.len() as int, 1)
                && final(self).refs_from_uid@ == old(self).refs_from_uid@,
            owner.id is None ==> filed_under(
                old(self).refs_from_uid@,
                final(self).refs_from_uid@,
                owner.uid.unwrap()@,
                old(self).refs@.len() as int,
                1,
            ) && final(self).refs_from_id@ == old(self).refs_from_id@,
    {
        let idx = self.refs.len();
        self.refs.push(r);
        match &owner.id {
            Some(p) => append_index(&mut self.refs_from_id, p, idx),
            None => {
                let u = owner.uid.as_ref().unwrap();
                append_index(&mut self.refs_from_uid, u, idx);
            },
        }
        proof {
            let one = Seq::new(1nat, |i: int| (old(self).refs@.len() + i) as usize);
            assert(one =~= seq![idx]);
            let (m0, m1, key) = if owner.id.is_some() {
                (old(self).refs_from_id@, self.refs_from_id@, owner.id.unwrap()@)
            } else {
                (old(self).refs_from_uid@, self.refs_from_uid@, owner.uid.unwrap()@)
            };
            let base = if m0.contains_key(key) { m0[key]@ } else { Seq::empty() };
            assert(appended(m0, key, idx) =~= base + one);
            assert forall|k: Seq<char>| k != key implies (#[trigger] m1.contains_key(k) == m0.contains_key(k)) && (m0.contains_key(k)
                ==> m1[k] == m0[k]) by {
                assert(m1.dom() == m0.dom().insert(key));
            }
            assert(filed_under(m0, m1, key, old(self).refs@.len() as int, 1));
            assert forall|k: Seq<char>| #[trigger] self.refs_from_id@.contains_key(k) implies indices_below(self.refs_from_id@[k]@, self.refs@.len() as int) by {
                if old(self).refs_from_id@.contains_key(k) {
                    assert(indices_below(old(self).refs_from_id@[k]@, old(self).refs@.len() as int));
                }
            }
            assert forall|k: Seq<char>| #[trigger] self.refs_from_uid@.contains_key(k) implies indices_below(self.refs_from_uid@[k]@, self.refs@.len() as int) by {
                if old(self).refs_from_uid@.contains_key(k) {
                    assert(indices_below(old(self).refs_from_uid@[k]@, old(self).refs@.len() as int));
                }
            }
        }
    }

    /// Records an element: a context entry for a start tag, an object when it
    /// has an identity, and the references it carries, attributed to the
    /// nearest identified element that encloses it.
    pub fn process_element_attrs(&mut self, tag_name: &String, attrs: &Vec<Attribute>, is_empty: bool)
        requires
            old(self).wf(),
        ensures
            final(self).wf(),
            final(self).current_element@ == old(self).current_element@,
            element_effect(*old(self), *final(self), *tag_name, attrs@, is_empty),
            final(self).version == old(self).version,
    {
        proof {
            reveal_strlit("ObjectID");
            reveal_strlit("ObjectUID");
            reveal_strlit("ObjectRef");
            reveal_strlit("ObjectURef");
        }
        let this_id = attr_value(attrs, "ObjectID");
        let this_uid = attr_value(attrs, "ObjectUID");
        let object_ref = attr_value(attrs, "ObjectRef");
        let object_uref = attr_value(attrs, "ObjectURef");
        // The parent is the nearest identified element enclosing this one.
        let parent = self.current_context();
        proof {
            lemma_nearest_identified(self.context_stack@);
        }
        let ghost s0 = *self;
        if !is_empty {
            self.context_stack.push(Context { id: copy_opt(&this_id), uid: copy_opt(&this_uid) });
        }
        if this_id.is_some() || this_uid.is_some() {
            let idx = self.objects.len();
            self.objects.push(
                XmlObject {
                    tag: tag_name.clone(),
                    object_id: copy_opt(&this_id),
                    object_uid: copy_opt(&this_uid),
                    attributes: copy_attrs(attrs),
                },
            );
            match &this_id {
                Some(id) => {
                    let ghost before = self.id_keys@;
                    if !self.objects_by_id.contains_key(id.as_str()) {
                        self.id_keys.push(id.clone());
                        proof {
                            lemma_key_set_push(before, *id);
                        }
                    }
                    append_index(&mut self.objects_by_id, id, idx);
                    proof {
                        assert(self.objects_by_id@.dom() =~= key_set(self.id_keys@));
                    }
                },
                None => {},
            }
            match &this_uid {
                Some(uid) => {
                    let ghost before = self.uid_keys@;
                    if !self.objects_by_uid.contains_key(uid.as_str()) {
                        self.uid_keys.push(uid.clone());
                        proof {
                            lemma_key_set_push(before, *uid);
                        }
                    }
                    self.objects_by_uid.insert(uid.clone(), idx);
                    proof {
                        assert(self.objects_by_uid@.dom() =~= key_set(self.uid_keys@));
                    }
                },
                None => {},
            }
            proof {
                assert forall|k: Seq<char>| #[trigger] self.objects_by_id@.contains_key(k) implies indices_below(self.objects_by_id@[k]@, self.objects@.len() as int) by {
                    if s0.objects_by_id@.contains_key(k) {
                        assert(indices_below(s0.objects_by_id@[k]@, s0.objects@.len() as int));
                    }
                }
                assert forall|k: Seq<char>| #[trigger] self.objects_by_uid@.contains_key(k) implies self.objects_by_uid@[k] < self.objects@.len() by {
                    if s0.objects_by_uid@.contains_key(k) {
                        assert(s0.objects_by_uid@[k] < s0.objects@.len());
                    }
                }
            }
        }
        let ghost r0 = self.refs@;
        let ghost st0 = *self;
        match &parent {
            Some(owner) => {
                match &object_ref {
                    Some(t) => {
                        self.store_ref(owner, Reference { child_tag: tag_name.clone(), target: t.clone(), is_guid: false });
                    },
                    None => {},
                }
                let ghost st1 = *self;
                let ghost n1: int = if object_ref.is_some() { 1 } else { 0 };
                match &object_uref {
                    Some(t) => {
                        self.store_ref(owner, Reference { child_tag: tag_name.clone(), target: t.clone(), is_guid: true });
                    },
                    None => {},
                }
                let ghost n2: int = if object_uref.is_some() { 1 } else { 0 };
                assert(self.refs@ =~= r0 + carried_refs(*tag_name, attrs@));
                proof {
                    let start = r0.len() as int;
                    match &owner.id {
                        Some(p) => {
                            lemma_file_twice(st0.refs_from_id@, st1.refs_from_id@, self.refs_from_id@, p@, start, n1, n2);
                        },
                        None => {
                            lemma_file_twice(st0.refs_from_uid@, st1.refs_from_uid@, self.refs_from_uid@, owner.uid.unwrap()@, start, n1, n2);
                        },
                    }
                    assert(carried_refs(*tag_name, attrs@).len() == n1 + n2);
                }
            },
            None => {
                assert(self.refs@ =~= r0 + Seq::<Reference>::empty());
            },
        }
    }
}

fn copy_attrs(v: &Vec<Attribute>) -> (r: Vec<Attribute>)
    ensures
        r@ == v@,
{
    let mut out: Vec<Attribute> = Vec::new();
    let mut i: usize = 0;
    while i < v.len()
        invariant
            i <= v@.len(),
            out@ == v@.subrange(0, i as int),
        decreases v@.len() - i,
    {
        out.push(Attribute { key: v[i].key.clone(), value: v[i].value.clone() });
        assert(v@.subrange(0, i + 1) =~= v@.subrange(0, i as int).push(v@[i as int]));
        i = i + 1;
    }
    assert(v@.subrange(0, v@.len() as int) =~= v@);
    out
}

// ---------------------------------------------------------------------------
// Texts and events
// ---------------------------------------------------------------------------
/// Key of the texts of child `tag` of the object at `pos`.
pub open spec fn child_key_spec(pos: nat, tag: Seq<char>) -> Seq<char> {
    decimal(pos) + seq!['/'] + tag
}

/// Key of the texts of child `tag` of the object at `pos`.
pub fn child_key(pos: usize, tag: &str) -> (r: String)
    ensures
        r@ == child_key_spec(pos as nat, tag@),
{
    let mut v = fmt_u64(pos as u64);
    v.push('/');
    append_str(&mut v, tag);
    string_of(&v)
}

fn copy_strings(v: &Vec<String>) -> (r: Vec<String>)
    ensures
        r@ == v@,
{
    let mut out: Vec<String> = Vec::new();
    let mut i: usize = 0;
    while i < v.len()
        invariant
            i <= v@.len(),
            out@ == v@.subrange(0, i as int),
        decreases v@.len() - i,
    {
        out.push(v[i].clone());
        assert(v@.subrange(0, i + 1) =~= v@.subrange(0, i as int).push(v@[i as int]));
        i = i + 1;
    }
    assert(v@.subrange(0, v@.len() as int) =~= v@);
    out
}

/// The tags whose text may name a media file.
pub open spec fn path_tag(tag: Seq<char>) -> bool {
    tag == "ActualMediaFilePath"@ || tag == "FilePath"@ || tag == "MediaFilePath"@
}

/// The key under which a media path found in the current element is stored:
/// the nearest GUID, else the nearest numeric id, else `unknown`.
pub open spec fn media_owner(s: Seq<Context>) -> Seq<char> {
    match nearest_uid(s) {
        Some(u) => u@,
        None => match nearest_id(s) {
            Some(i) => i@,
            None => "unknown"@,
        },
    }
}

/// The effect of character data on the graph: a media path is recorded
/// under the nearest GUID (else numeric id) when the text sits in a path tag
/// and is one; identities, objects and references stay as they were.
pub open spec fn text_effect(s0: ParserState, s1: ParserState, text: String) -> bool {
    &&& s1.objects@ == s0.objects@
    &&& s1.objects_by_id@ == s0.objects_by_id@
    &&& s1.objects_by_uid@ == s0.objects_by_uid@
    &&& s1.refs@ == s0.refs@
    &&& s1.refs_from_id@ == s0.refs_from_id@
    &&& s1.refs_from_uid@ == s0.refs_from_uid@
    &&& s1.context_stack@ == s0.context_stack@
    &&& s1.media_paths@ == if s0.current_element@.len() > 0 && path_tag(s0.current_element@.last()@) && media_path_text(
        text@,
        lower_of(text@),
    ) {
        s0.media_paths@.insert(media_owner(s0.context_stack@), text)
    } else {
        s0.media_paths@
    }
}

impl ParserState {
    fn append_child_text(&mut self, pos: usize, tag: &str, text: &String)
        requires
            old(self).wf(),
        ensures
            final(self).wf(),
            final(self).objects@ == old(self).objects@,
            final(self).objects_by_id@ == old(self).objects_by_id@,
            final(self).objects_by_uid@ == old(self).objects_by_uid@,
            final(self).refs@ == old(self).refs@,
            final(self).refs_from_id@ == old(self).refs_from_id@,
            final(self).refs_from_uid@ == old(self).refs_from_uid@,
            final(self).media_paths@ == old(self).media_paths@,
            final(self).context_stack@ == old(self).context_stack@,
            final(self).current_element@ == old(self).current_element@,
            final(self).version == old(self).version,
    {
        let key = child_key(pos, tag);
        if !self.child_texts.contains_key(key.as_str()) {
            let pk = string_of(&fmt_u64(pos as u64));
            let mut tags: Vec<String> = match self.child_tags.get(pk.as_str()) {
                Some(v) => copy_strings(v),
                None => Vec::new(),
            };
            tags.push(tag.to_owned());
            self.child_tags.insert(pk, tags);
        }
        let mut list: Vec<String> = match self.child_texts.get(key.as_str()) {
            Some(v) => copy_strings(v),
            None => Vec::new(),
        };
        list.push(text.clone());
        self.child_texts.insert(key, list);
    }

    /// Handles character data: records it as a media path when it is one
    /// inside a path tag, and as a child text of the nearest identified
    /// element.
    pub fn add_text(&mut self, text: String)
        requires
            old(self).wf(),
        ensures
            final(self).wf(),
            text_effect(*old(self), *final(self), text),
            final(self).current_element@ == old(self).current_element@,
            final(self).version == old(self).version,
    {
        let n = self.current_element.len();
        let tag: String = if n > 0 {
            self.current_element[n - 1].clone()
        } else {
            "".to_owned()
        };
        proof {
            reveal_strlit("ActualMediaFilePath");
            reveal_strlit("FilePath");
            reveal_strlit("MediaFilePath");
            reveal_strlit("unknown");
        }
        let is_path_tag = str_eq(tag.as_str(), "ActualMediaFilePath") || str_eq(tag.as_str(), "FilePath") || str_eq(
            tag.as_str(),
            "MediaFilePath",
        );
        if n > 0 && is_path_tag && is_media_path(text.as_str()) {
            let owner: String = match self.current_object_uid() {
                Some(u) => u,
                None => match self.current_object_id() {
                    Some(i) => i,
                    None => "unknown".to_owned(),
                },
            };
            let ghost before = self.media_keys@;
            if !self.media_paths.contains_key(owner.as_str()) {
                self.media_keys.push(owner.clone());
                proof {
                    lemma_key_set_push(before, owner);
                }
            }
            self.media_paths.insert(owner, text.clone());
            assert(self.media_paths@.dom() =~= key_set(self.media_keys@));
        }
        if !text.as_str().is_empty() {
            match self.current_object_uid() {
                Some(uid) => {
                    match self.objects_by_uid.get(uid.as_str()) {
                        Some(pos) => {
                            let p = *pos;
                            self.append_child_text(p, tag.as_str(), &text);
                        },
                        None => {},
                    }
                },
                None => {},
            }
            match self.current_object_id() {
                Some(id) => {
                    let last: Option<usize> = match self.objects_by_id.get(id.as_str()) {
                        Some(list) => if list.len() > 0 {
                            Some(list[list.len() - 1])
                        } else {
                            None
                        },
                        None => None,
                    };
                    match last {
                        Some(p) => self.append_child_text(p, tag.as_str(), &text),
                        None => {},
                    }
                },
                None => {},
            }
        }
    }

    /// Applies one event.
    pub fn handle_event(&mut self, event: XmlEvent)
        requires
            old(self).wf(),
        ensures
            final(self).wf(),
            match event {
                XmlEvent::Start(e) => element_effect(*old(self), *final(self), e.tag, e.attrs@, false)
                    && final(self).current_element@ == old(self).current_element@.push(e.tag)
                    && (e.tag@ != "PremiereData"@ ==> final(self).version == old(self).version),
                XmlEvent::Empty(e) => element_effect(*old(self), *final(self), e.tag, e.attrs@, true)
                    && final(self).current_element@ == old(self).current_element@
                    && final(self).version == old(self).version,
                XmlEvent::End => *final(self) == (ParserState {
                    current_element: final(self).current_element,
                    context_stack: final(self).context_stack,
                    ..*old(self)
                }) && final(self).context_stack@ == (if old(self).context_stack@.len() > 0 {
                    old(self).context_stack@.drop_last()
                } else {
                    old(self).context_stack@
                }) && final(self).current_element@ == (if old(self).current_element@.len() > 0 {
                    old(self).current_element@.drop_last()
                } else {
                    old(self).current_element@
                }),
                XmlEvent::Text(t) => text_effect(*old(self), *final(self), t) && final(self).current_element@
                    == old(self).current_element@ && final(self).version == old(self).version,
                _ => *final(self) == *old(self),
            },
    {
        match event {
            XmlEvent::Start(Element { tag, attrs }) => {
                let ghost s0 = *self;
                self.current_element.push(tag.clone());
                let ghost s1 = *self;
                self.process_element_attrs(&tag, &attrs, false);
                let ghost s2 = *self;
                proof {
                    reveal_strlit("PremiereData");
                    reveal_strlit("Version");
                }
                if str_eq(tag.as_str(), "PremiereData") {
                    match attr_value(&attrs, "Version") {
                        Some(v) => {
                            let c = chars_of(v.as_str());
                            match parse_i64(&c) {
                                Some(n) => {
                                    if 0 <= n && n <= 4294967295 && !(c.len() > 0 && c[0] == '-') {
                                        self.version = n as u32;
                                    }
                                },
                                None => {},
                            }
                        },
                        None => {},
                    }
                }
                proof {
                    lemma_element_effect_frame(s1, s2, s0, *self, tag, attrs@, false);
                    assert(element_effect(s0, *self, tag, attrs@, false));
                    assert(self.current_element@ == s0.current_element@.push(tag));
                    assert(tag@ != "PremiereData"@ ==> self.version == s0.version);
                }
            },
            XmlEvent::Empty(Element { tag, attrs }) => {
                self.process_element_attrs(&tag, &attrs, true);
            },
            XmlEvent::End => {
                self.current_element.pop();
                self.context_stack.pop();
            },
            XmlEvent::Text(t) => {
                self.add_text(t);
            },
            _ => {},
        }
    }
}

// ---------------------------------------------------------------------------
// Resolving a clip to its media
// ---------------------------------------------------------------------------
/// The deepest chain of references the resolver follows.
pub const MAX_RESOLVE_DEPTH: usize = 20;

/// Whether `t` names a media descriptor: a media path was found inside it, or
/// it is the GUID of a `Media` element.
pub open spec fn is_media_target(st: ParserState, t: Seq<char>) -> bool {
    st.media_paths@.contains_key(t) || (st.objects_by_uid@.contains_key(t) && st.objects_by_uid@[t] < st.objects@.len()
        && st.objects@[st.objects_by_uid@[t] as int].tag@ == "Media"@)
}

/// Tags of the objects that commonly sit on a chain from a clip to its media.
pub open spec fn chain_tag(tag: Seq<char>) -> bool {
    tag == "SubClip"@ || tag == "VideoClip"@ || tag == "AudioClip"@ || tag == "MasterClip"@ || tag
        == "VideoMediaSource"@ || tag == "AudioMediaSource"@ || tag == "Clip"@ || tag == "Source"@
}

fn is_chain_tag(tag: &str) -> (r: bool)
    ensures
        r == chain_tag(tag@),
{
    str_eq(tag, "SubClip") || str_eq(tag, "VideoClip") || str_eq(tag, "AudioClip") || str_eq(tag, "MasterClip")
        || str_eq(tag, "VideoMediaSource") || str_eq(tag, "AudioMediaSource") || str_eq(tag, "Clip") || str_eq(
        tag,
        "Source",
    )
}

impl ParserState {
    /// Among the objects at `positions`, the one whose tag is `hint`, else one
    /// with a chain tag, else the first.
    pub fn pick_object(&self, positions: &Vec<usize>, hint: &str) -> (r: Option<usize>)
        requires
            indices_below(positions@, self.objects@.len() as int),
        ensures
            r is None <==> positions@.len() == 0,
            r matches Some(p) ==> positions@.contains(p),
            r matches Some(p) ==> (self.objects@[p as int].tag@ == hint@ || !exists|j: int|
                0 <= j < positions@.len() && self.objects@[positions@[j] as int].tag@ == hint@),
    {
        let mut i: usize = 0;
        while i < positions.len()
            invariant
                i <= positions@.len(),
                indices_below(positions@, self.objects@.len() as int),
                forall|j: int| 0 <= j < i ==> self.objects@[#[trigger] positions@[j] as int].tag@ != hint@,
            decreases positions@.len() - i,
        {
            if str_eq(self.objects[positions[i]].tag.as_str(), hint) {
                return Some(positions[i]);
            }
            i = i + 1;
        }
        let mut j: usize = 0;
        while j < positions.len()
            invariant
                j <= positions@.len(),
                indices_below(positions@, self.objects@.len() as int),
                forall|k: int| 0 <= k < positions@.len() ==> self.objects@[#[trigger] positions@[k] as int].tag@ != hint@,
            decreases positions@.len() - j,
        {
            if is_chain_tag(self.objects[positions[j]].tag.as_str()) {
                return Some(positions[j]);
            }
            j = j + 1;
        }
        if positions.len() > 0 {
            Some(positions[0])
        } else {
            None
        }
    }

    /// Follows references from `start_id` (a numeric id or a GUID) to the
    /// GUID of a media descriptor, up to `MAX_RESOLVE_DEPTH` links deep.
    pub fn find_media_for_clip(&self, start_id: &String, depth: usize) -> (r: Option<String>)
        requires
            self.wf(),
        ensures
            match r {
                Some(t) => resolve_spec(*self, start_id@, depth as int) == Some(t@),
                None => resolve_spec(*self, start_id@, depth as int) is None,
            },
            r matches Some(t) ==> is_media_target(*self, t@),
        decreases MAX_RESOLVE_DEPTH + 1 - depth,
    {
        if depth > MAX_RESOLVE_DEPTH {
            return None;
        }
        let mut all: Vec<usize> = match self.refs_from_id.get(start_id.as_str()) {
            Some(v) => copy_indices(v),
            None => Vec::new(),
        };
        match self.refs_from_uid.get(start_id.as_str()) {
            Some(v) => {
                let mut k: usize = 0;
                let ghost a0 = all@;
                while k < v.len()
                    invariant
                        k <= v@.len(),
                        all@ == a0 + v@.subrange(0, k as int),
                    decreases v@.len() - k,
                {
                    all.push(v[k]);
                    assert(v@.subrange(0, k + 1) =~= v@.subrange(0, k as int).push(v@[k as int]));
                    k = k + 1;
                }
                assert(v@.subrange(0, v@.len() as int) =~= v@);
            },
            None => {},
        }
        assert(all@ =~= ref_list(*self, start_id@));
        proof {
            assert forall|j: int| 0 <= j < all@.len() implies all@[j] < self.refs@.len() by {
                let l1 = if self.refs_from_id@.contains_key(start_id@) { self.refs_from_id@[start_id@]@ } else { Seq::empty() };
                if j < l1.len() {
                    assert(indices_below(self.refs_from_id@[start_id@]@, self.refs@.len() as int));
                } else {
                    assert(indices_below(self.refs_from_uid@[start_id@]@, self.refs@.len() as int));
                }
            }
        }
        let mut i: usize = 0;
        assert(all@.subrange(0, all@.len() as int) =~= all@);
        while i < all.len()
            invariant
                self.wf(),
                depth <= MAX_RESOLVE_DEPTH,
                i <= all@.len(),
                indices_below(all@, self.refs@.len() as int),
                all@ == ref_list(*self, start_id@),
                first_hit(*self, all@, depth as int) == first_hit(*self, all@.subrange(i as int, all@.len() as int), depth as int),
            decreases all@.len() - i,
        {
            let ghost rest = all@.subrange(i as int, all@.len() as int);
            assert(rest[0] == all@[i as int]);
            assert(rest.drop_first() =~= all@.subrange(i + 1, all@.len() as int));
            let found = self.follow(all[i], depth);
            if found.is_some() {
                return found;
            }
            i = i + 1;
        }
        None
    }

    /// The media descriptor reached through reference `idx`.
    fn follow(&self, idx: usize, depth: usize) -> (res: Option<String>)
        requires
            self.wf(),
            depth <= MAX_RESOLVE_DEPTH,
            idx < self.refs@.len(),
        ensures
            match res {
                Some(t) => follow_spec(*self, idx as int, depth as int) == Some(t@),
                None => follow_spec(*self, idx as int, depth as int) is None,
            },
            res matches Some(t) ==> is_media_target(*self, t@),
        decreases MAX_RESOLVE_DEPTH + 1 - depth, 0nat,
    {
        proof {
            reveal_strlit("Media");
        }
        let r = &self.refs[idx];
        if r.is_guid {
            if self.media_paths.contains_key(r.target.as_str()) {
                return Some(r.target.clone());
            }
            match self.objects_by_uid.get(r.target.as_str()) {
                Some(pos) => {
                    if str_eq(self.objects[*pos].tag.as_str(), "Media") {
                        return Some(r.target.clone());
                    }
                    self.find_media_for_clip(&r.target, depth + 1)
                },
                None => None,
            }
        } else {
            match self.objects_by_id.get(r.target.as_str()) {
                Some(positions) => {
                    // The referring tag hints at the type expected, since
                    // numeric ids are shared across types.
                    match self.pick_object(positions, r.child_tag.as_str()) {
                        Some(_) => self.find_media_for_clip(&r.target, depth + 1),
                        None => None,
                    }
                },
                None => None,
            }
        }
    }
}

/// The references stored under `id`: those under the numeric id, then those
/// under the GUID.
pub open spec fn ref_list(st: ParserState, id: Seq<char>) -> Seq<usize> {
    (if st.refs_from_id@.contains_key(id) {
        st.refs_from_id@[id]@
    } else {
        Seq::empty()
    }) + (if st.refs_from_uid@.contains_key(id) {
        st.refs_from_uid@[id]@
    } else {
        Seq::empty()
    })
}

/// The walk from `id` to a media descriptor: the first reference, in order,
/// that leads to one; nothing beyond `MAX_RESOLVE_DEPTH` links.
pub open spec fn resolve_spec(st: ParserState, id: Seq<char>, depth: int) -> Option<Seq<char>>
    decreases MAX_RESOLVE_DEPTH + 1 - depth, 2nat, 0nat,
{
    if depth > MAX_RESOLVE_DEPTH || depth < 0 {
        None
    } else {
        first_hit(st, ref_list(st, id), depth)
    }
}

/// The first of the references `idxs` that leads to a media descriptor.
pub open spec fn first_hit(st: ParserState, idxs: Seq<usize>, depth: int) -> Option<Seq<char>>
    decreases MAX_RESOLVE_DEPTH + 1 - depth, 1nat, idxs.len(),
{
    if depth > MAX_RESOLVE_DEPTH || depth < 0 || idxs.len() == 0 {
        None
    } else {
        match follow_spec(st, idxs[0] as int, depth) {
            Some(t) => Some(t),
            None => first_hit(st, idxs.drop_first(), depth),
        }
    }
}

/// Where one reference leads: a GUID target that has a media path or is a
/// `Media` element is the result; another GUID target, or a numeric target
/// that names some object, is walked one link deeper; a dangling target
/// leads nowhere.
pub open spec fn follow_spec(st: ParserState, idx: int, depth: int) -> Option<Seq<char>>
    decreases MAX_RESOLVE_DEPTH + 1 - depth, 0nat, 0nat,
{
    if depth > MAX_RESOLVE_DEPTH || depth < 0 || idx < 0 || idx >= st.refs@.len() {
        None
    } else {
        let r = st.refs@[idx];
        let t = r.target@;
        if r.is_guid {
            if st.media_paths@.contains_key(t) {
                Some(t)
            } else if st.objects_by_uid@.contains_key(t) {
                if st.objects_by_uid@[t] < st.objects@.len() && st.objects@[st.objects_by_uid@[t] as int].tag@ == "Media"@ {
                    Some(t)
                } else {
                    resolve_spec(st, t, depth + 1)
                }
            } else {
                None
            }
        } else if st.objects_by_id@.contains_key(t) && st.objects_by_id@[t]@.len() > 0 {
            resolve_spec(st, t, depth + 1)
        } else {
            None
        }
    }
}

/// A walk that starts too deep finds nothing, and so does one from an
/// element whose every reference dangles: its target has no media path and
/// names no object in either namespace.
pub proof fn law_resolve_none(st: ParserState, id: Seq<char>, depth: int)
    ensures
        depth > MAX_RESOLVE_DEPTH ==> resolve_spec(st, id, depth) is None,
        (forall|j: int|
            0 <= j < ref_list(st, id).len() ==> !st.media_paths@.contains_key(st.refs@[#[trigger] ref_list(st, id)[j] as int].target@)
                && !st.objects_by_uid@.contains_key(st.refs@[ref_list(st, id)[j] as int].target@)
                && !st.objects_by_id@.contains_key(st.refs@[ref_list(st, id)[j] as int].target@)) ==> resolve_spec(st, id, depth) is None,
{
    let l = ref_list(st, id);
    if forall|j: int|
        0 <= j < l.len() ==> !st.media_paths@.contains_key(st.refs@[#[trigger] l[j] as int].target@)
            && !st.objects_by_uid@.contains_key(st.refs@[l[j] as int].target@)
            && !st.objects_by_id@.contains_key(st.refs@[l[j] as int].target@) {
        lemma_dangling_first_hit(st, l, depth);
    }
}

proof fn lemma_dangling_first_hit(st: ParserState, l: Seq<usize>, depth: int)
    requires
        forall|j: int|
            0 <= j < l.len() ==> !st.media_paths@.contains_key(st.refs@[#[trigger] l[j] as int].target@)
                && !st.objects_by_uid@.contains_key(st.refs@[l[j] as int].target@)
                && !st.objects_by_id@.contains_key(st.refs@[l[j] as int].target@),
    ensures
        first_hit(st, l, depth) is None,
    decreases l.len(),
{
    if l.len() > 0 && 0 <= depth <= MAX_RESOLVE_DEPTH {
        assert(!st.media_paths@.contains_key(st.refs@[l[0] as int].target@));
        assert(follow_spec(st, l[0] as int, depth) is None);
        let d = l.drop_first();
        assert forall|j: int|
            0 <= j < d.len() implies !st.media_paths@.contains_key(st.refs@[#[trigger] d[j] as int].target@)
                && !st.objects_by_uid@.contains_key(st.refs@[d[j] as int].target@)
                && !st.objects_by_id@.contains_key(st.refs@[d[j] as int].target@) by {
            assert(d[j] == l[j + 1]);
        }
        lemma_dangling_first_hit(st, d, depth);
    }
}

} // verus!
