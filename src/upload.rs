use vstd::prelude::*;

verus! {

/// The extension that the standard library's path rules read in a file name.
pub uninterp spec fn path_extension(name: Seq<char>) -> Option<Seq<char>>;

/// Relies on `std::path::Path::extension`: the part of the file name after its
/// last dot, `None` when the name holds no dot past its first character. A
/// `&str` always converts back to text.
#[verifier::external_body]
fn file_extension(name: &str) -> (r: Option<String>)
    ensures
        r matches Some(e) ==> path_extension(name@) == Some(e@),
        r is None ==> path_extension(name@) is None,
        r matches Some(e) ==> !e@.contains('.'),
        !name@.contains('.') ==> r is None,
{
    std::path::Path::new(name).extension().and_then(|e| e.to_str()).map(|e| e.to_owned())
}

/// A file name cleaned of the characters that a file name may not hold.
pub uninterp spec fn sanitized(name: Seq<char>) -> Seq<char>;

/// Relies on `sanitize_filename::sanitize`: drops path separators, the other
/// characters that file systems refuse and control characters, and names made
/// of dots only.
#[verifier::external_body]
fn sanitize_name(name: &str) -> (r: String)
    ensures
        r@ == sanitized(name@),
        !r@.contains('/'),
        !r@.contains('\\'),
{
    sanitize_filename::sanitize(name)
}

/// A character of the hyphenated lower-case form of a UUID.
pub open spec fn is_uuid_char(c: char) -> bool {
    ('0' <= c && c <= '9') || ('a' <= c && c <= 'f') || c == '-'
}

/// Relies on `uuid::Uuid::new_v4` and its `Display`: a random version-4 UUID in
/// its hyphenated lower-case form, 36 characters of hex digits and hyphens.
#[verifier::external_body]
fn random_uuid() -> (r: String)
    ensures
        r@.len() == 36,
        forall|i: int| 0 <= i < 36 ==> is_uuid_char(#[trigger] r@[i]),
{
    uuid::Uuid::new_v4().to_string()
}

/// Relies on `format!`: `stem`, a dot, then `ext`.
#[verifier::external_body]
fn dotted(stem: &str, ext: &str) -> (r: String)
    ensures
        r@ == stem@ + seq!['.'] + ext@,
{
    format!("{}.{}", stem, ext)
}

/// The extension under which an uploaded file is stored: the one of its name,
/// or `txt` when the name has none.
pub open spec fn stored_extension(name: Seq<char>) -> Seq<char> {
    match path_extension(name) {
        Some(e) => e,
        None => seq!['t', 'x', 't'],
    }
}

/// The names under which uploaded files are stored, in the order they came:
/// each entry pairs the name a file was sent under with its stored name.
pub struct UploadMap {
    entries: Vec<(String, String)>,
}

impl View for UploadMap {
    type V = Seq<(Seq<char>, Seq<char>)>;

    closed spec fn view(&self) -> Seq<(Seq<char>, Seq<char>)> {
        Seq::new(self.entries@.len(), |i: int| (self.entries@[i].0@, self.entries@[i].1@))
    }
}

impl UploadMap {
    /// An empty map.
    pub fn new() -> (r: Self)
        ensures
            r@ == Seq::<(Seq<char>, Seq<char>)>::empty(),
    {
        let r = UploadMap { entries: Vec::new() };
        assert(r@ =~= Seq::<(Seq<char>, Seq<char>)>::empty());
        r
    }

    /// Records a file sent under `filename` and gives the name it is stored
    /// under: a fresh UUID, a dot, and the file's extension (`txt` when it has
    /// none).
    pub fn add(&mut self, filename: &str) -> (r: String)
        ensures
            final(self)@ == old(self)@.push((filename@, r@)),
            r@.len() == 37 + stored_extension(filename@).len(),
            r@[36] == '.',
            r@.subrange(37, r@.len() as int) == stored_extension(filename@),
            forall|i: int| 0 <= i < 36 ==> is_uuid_char(#[trigger] r@[i]),
    {
        let id = random_uuid();
        let stored = match file_extension(filename) {
            Some(ext) => dotted(id.as_str(), ext.as_str()),
            None => dotted(id.as_str(), "txt"),
        };
        proof {
            reveal_strlit("txt");
            assert("txt"@ =~= seq!['t', 'x', 't']);
            assert(stored@.subrange(37, stored@.len() as int) =~= stored_extension(filename@));
            assert forall|i: int| 0 <= i < 36 implies is_uuid_char(#[trigger] stored@[i]) by {
                assert(stored@[i] == id@[i]);
            }
        }
        let entry = (filename.to_owned(), stored.clone());
        self.entries.push(entry);
        proof {
            assert(self@ =~= old(self)@.push((filename@, stored@)));
        }
        stored
    }

    /// Records a file sent under `sent_name`: its name is cleaned of the
    /// characters that a file name may not hold, then recorded as by `add`.
    pub fn add_upload(&mut self, sent_name: &str) -> (r: String)
        ensures
            final(self)@ == old(self)@.push((sanitized(sent_name@), r@)),
            r@.len() == 37 + stored_extension(sanitized(sent_name@)).len(),
            r@[36] == '.',
            r@.subrange(37, r@.len() as int) == stored_extension(sanitized(sent_name@)),
            forall|i: int| 0 <= i < 36 ==> is_uuid_char(#[trigger] r@[i]),
    {
        let clean = sanitize_name(sent_name);
        self.add(clean.as_str())
    }

    /// The number of files recorded.
    pub fn len(&self) -> (r: usize)
        ensures
            r == self@.len(),
    {
        self.entries.len()
    }

    /// The `i`-th entry: the name a file was sent under and its stored name.
    pub fn entry(&self, i: usize) -> (r: (String, String))
        requires
            i < self@.len(),
        ensures
            (r.0@, r.1@) == self@[i as int],
    {
        let (sent, stored) = &self.entries[i];
        (sent.clone(), stored.clone())
    }
}

} // verus!
