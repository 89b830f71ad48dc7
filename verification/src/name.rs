//! Stored names: which client-declared names are accepted, and what they are
//! stored as.
//!
//! A declared name is accepted when it is a single path segment: not empty,
//! free of separators and control characters, and neither `.` nor `..`. It is
//! stored under the same name with its extension in lower case. The
//! extension of any name, accepted or not, is that of its last component.

use vstd::prelude::*;
use vstd::string::StringExecFns;
use crate::error::ErrorKind;

verus! {

/// A character that may not occur in a stored name: a path separator, the
/// drive separator, or a control character.
pub open spec fn is_unsafe_char(c: char) -> bool {
    c == '/' || c == '\\' || c == ':' || (c as u32) < 0x20 || c as u32 == 0x7f
}

/// A name that stays inside the folder it is joined to: one non-empty path
/// segment that names neither the folder itself nor its parent.
pub open spec fn is_valid_name(name: Seq<char>) -> bool {
    &&& name.len() > 0
    &&& forall|i: int| 0 <= i < name.len() ==> !is_unsafe_char(#[trigger] name[i])
    &&& name != seq!['.']
    &&& name != seq!['.', '.']
}

/// The index of the last `.` in `name`, or -1 where it has none.
pub open spec fn last_dot(name: Seq<char>) -> int
    decreases name.len(),
{
    if name.len() == 0 {
        -1
    } else if name.last() == '.' {
        name.len() - 1
    } else {
        last_dot(name.drop_last())
    }
}

/// Where the extension of `name` begins: behind its last dot, unless that dot
/// is the first character or there is none; then at the end of the name.
pub open spec fn extension_start(name: Seq<char>) -> int {
    if last_dot(name) > 0 {
        last_dot(name) + 1
    } else {
        name.len() as int
    }
}

/// The extension of `name`: what follows its last dot. Empty where the name
/// has no dot, only a leading one, or ends in one.
pub open spec fn extension_of(name: Seq<char>) -> Seq<char> {
    name.skip(extension_start(name))
}

/// `c` with the letters `A` to `Z` mapped to `a` to `z`.
pub open spec fn ascii_lower(c: char) -> char {
    if 'A' <= c && c <= 'Z' {
        ((c as u8 + 32) as u8) as char
    } else {
        c
    }
}

/// `s` with every character mapped by [`ascii_lower`].
pub open spec fn lower(s: Seq<char>) -> Seq<char> {
    Seq::new(s.len(), |i: int| ascii_lower(s[i]))
}

/// The name under which a declared name is stored: the declared name with
/// its extension in lower case.
pub open spec fn stored_name(name: Seq<char>) -> Seq<char> {
    name.take(extension_start(name)) + lower(extension_of(name))
}

/// A character that separates the components of a path.
pub open spec fn is_separator(c: char) -> bool {
    c == '/' || c == '\\'
}

/// The index of the last separator in `path`, or -1 where it has none.
pub open spec fn last_separator(path: Seq<char>) -> int
    decreases path.len(),
{
    if path.len() == 0 {
        -1
    } else if is_separator(path.last()) {
        path.len() - 1
    } else {
        last_separator(path.drop_last())
    }
}

/// Whether `path` ends in a component that is a single dot, which names
/// the folder before it and no file.
pub open spec fn ends_in_dot_component(path: Seq<char>) -> bool {
    &&& path.len() > 0
    &&& path.last() == '.'
    &&& (path.len() == 1 || is_separator(path[path.len() - 2]))
}

/// The last component of `path`: what stands between its separators last,
/// with separators at the end and components of a single dot passed over.
/// Empty where the path has no such component.
pub open spec fn last_component(path: Seq<char>) -> Seq<char>
    decreases path.len(),
{
    if path.len() == 0 {
        Seq::empty()
    } else if is_separator(path.last()) || ends_in_dot_component(path) {
        last_component(path.drop_last())
    } else {
        path.skip(last_separator(path) + 1)
    }
}

/// The extension that a declared name carries: that of its last component.
/// It reaches across no separator, whatever the client wrote.
pub open spec fn declared_extension(path: Seq<char>) -> Seq<char> {
    extension_of(last_component(path))
}

/// `String::push` appends one character.
pub assume_specification[ String::push ](s: &mut String, ch: char)
    ensures
        final(s)@ == old(s)@.push(ch),
;

/// The last dot of a name is a dot, nothing behind it is one, and a name
/// without dots has none.
pub proof fn lemma_last_dot(name: Seq<char>)
    ensures
        -1 <= last_dot(name) < name.len(),
        last_dot(name) >= 0 ==> name[last_dot(name)] == '.',
        forall|i: int| last_dot(name) < i < name.len() ==> name[i] != '.',
    decreases name.len(),
{
    if name.len() > 0 && name.last() != '.' {
        let front = name.drop_last();
        lemma_last_dot(front);
        assert forall|i: int| last_dot(name) < i < name.len() implies name[i] != '.' by {
            if i < front.len() {
                assert(name[i] == front[i]);
            }
        }
    }
}

/// Appending a character moves the last dot there if it is a dot, and
/// leaves it otherwise.
proof fn lemma_last_dot_step(name: Seq<char>, i: int)
    requires
        0 <= i < name.len(),
    ensures
        last_dot(name.take(i + 1)) == if name[i] == '.' {
            i
        } else {
            last_dot(name.take(i))
        },
{
    assert(name.take(i + 1).drop_last() == name.take(i));
}

/// The last separator of a path is a separator, nothing behind it is one,
/// and a path without separators has none.
pub proof fn lemma_last_separator(path: Seq<char>)
    ensures
        -1 <= last_separator(path) < path.len(),
        last_separator(path) >= 0 ==> is_separator(path[last_separator(path)]),
        forall|i: int| last_separator(path) < i < path.len() ==> !is_separator(#[trigger] path[i]),
    decreases path.len(),
{
    if path.len() > 0 && !is_separator(path.last()) {
        let front = path.drop_last();
        lemma_last_separator(front);
        assert forall|i: int| last_separator(path) < i < path.len() implies !is_separator(
            #[trigger] path[i],
        ) by {
            if i < front.len() {
                assert(path[i] == front[i]);
            }
        }
    }
}

/// Appending a character moves the last separator there if it is one, and
/// leaves it otherwise.
proof fn lemma_last_separator_step(path: Seq<char>, i: int)
    requires
        0 <= i < path.len(),
    ensures
        last_separator(path.take(i + 1)) == if is_separator(path[i]) {
            i
        } else {
            last_separator(path.take(i))
        },
{
    assert(path.take(i + 1).drop_last() == path.take(i));
}

/// The last component of a path holds no separator and is not a single
/// dot.
pub proof fn lemma_last_component(path: Seq<char>)
    ensures
        forall|i: int|
            0 <= i < last_component(path).len() ==> !is_separator(
                #[trigger] last_component(path)[i],
            ),
        last_component(path) != seq!['.'],
    decreases path.len(),
{
    if path.len() == 0 {
        assert(last_component(path).len() == 0);
    } else if is_separator(path.last()) || ends_in_dot_component(path) {
        lemma_last_component(path.drop_last());
    } else {
        lemma_last_separator(path);
        let start = last_separator(path) + 1;
        let piece = path.skip(start);
        assert forall|i: int| 0 <= i < piece.len() implies !is_separator(#[trigger] piece[i]) by {
            assert(piece[i] == path[start + i]);
        }
        if piece == seq!['.'] {
            assert(piece.len() == 1);
            assert(start == path.len() - 1);
            assert(path.last() == piece[0]);
            assert(ends_in_dot_component(path));
        }
    }
}

/// The extension that a declared name carries holds neither a dot nor a
/// separator, and where there is one, the last component of the name is
/// what stands before it, a dot, and the extension.
pub proof fn lemma_declared_extension(path: Seq<char>)
    ensures
        forall|i: int|
            0 <= i < declared_extension(path).len() ==> {
                let c = #[trigger] declared_extension(path)[i];
                c != '.' && !is_separator(c)
            },
        declared_extension(path).len() > 0 ==> {
            let component = last_component(path);
            let start = extension_start(component);
            &&& 0 < start - 1 < component.len()
            &&& component[start - 1] == '.'
            &&& component == component.take(start - 1).push('.') + declared_extension(path)
        },
{
    let component = last_component(path);
    let start = extension_start(component);
    let ext = declared_extension(path);
    lemma_last_component(path);
    lemma_last_dot(component);
    assert forall|i: int| 0 <= i < ext.len() implies {
        let c = #[trigger] ext[i];
        c != '.' && !is_separator(c)
    } by {
        assert(ext[i] == component[start + i]);
    }
    if ext.len() > 0 {
        assert(component =~= component.take(start - 1).push('.') + ext);
    }
}

/// A valid name is its own last component, so the extension that it
/// carries is what follows its last dot.
pub proof fn lemma_valid_name_is_one_component(name: Seq<char>)
    requires
        is_valid_name(name),
    ensures
        last_component(name) == name,
        declared_extension(name) == extension_of(name),
{
    lemma_last_separator(name);
    if last_separator(name) >= 0 {
        assert(is_unsafe_char(name[last_separator(name)]));
    }
    assert(!is_separator(name.last())) by {
        assert(!is_unsafe_char(name.last()));
    }
    if ends_in_dot_component(name) {
        if name.len() == 1 {
            assert(name =~= seq!['.']);
        } else {
            assert(is_unsafe_char(name[name.len() - 2]));
        }
    }
    assert(name.skip(0) =~= name);
}

/// The folder `root` joined with the segment `name`.
pub open spec fn resolve(root: Seq<char>, name: Seq<char>) -> Seq<char> {
    root + seq!['/'] + name
}

/// Whether `path` names an entry directly inside the folder `root`: the
/// folder, one separator and one valid segment.
pub open spec fn is_inside(root: Seq<char>, path: Seq<char>) -> bool {
    exists|segment: Seq<char>| is_valid_name(segment) && path == #[trigger] resolve(root, segment)
}

/// Whether `name` steps to a parent folder at index `i`: two dots and a
/// separator.
pub open spec fn parent_step_at(name: Seq<char>, i: int) -> bool {
    &&& 0 <= i
    &&& i + 2 < name.len()
    &&& name[i] == '.'
    &&& name[i + 1] == '.'
    &&& (name[i + 2] == '/' || name[i + 2] == '\\')
}

/// Whether `name` holds `../` (or `..\`) anywhere.
pub open spec fn has_parent_step(name: Seq<char>) -> bool {
    exists|i: int| parent_step_at(name, i)
}

/// Whether `name` begins as an absolute path does: with a separator, or
/// with one character and a colon, as a drive is written.
pub open spec fn has_absolute_prefix(name: Seq<char>) -> bool {
    ||| name.len() >= 1 && (name[0] == '/' || name[0] == '\\')
    ||| name.len() >= 2 && name[1] == ':'
}

/// The characters of a stored name, one by one: those of the declared name,
/// in lower case from the extension on.
pub proof fn lemma_stored_name_index(name: Seq<char>)
    ensures
        0 <= extension_start(name) <= name.len(),
        stored_name(name).len() == name.len(),
        forall|i: int|
            0 <= i < name.len() ==> #[trigger] stored_name(name)[i] == if i < extension_start(
                name,
            ) {
                name[i]
            } else {
                ascii_lower(name[i])
            },
{
    lemma_last_dot(name);
}

/// Two names with their dots at the same places have the same last dot.
proof fn lemma_last_dot_same_dots(a: Seq<char>, b: Seq<char>)
    requires
        a.len() == b.len(),
        forall|i: int| 0 <= i < a.len() ==> (a[i] == '.') == (b[i] == '.'),
    ensures
        last_dot(a) == last_dot(b),
    decreases a.len(),
{
    if a.len() > 0 {
        assert((a.last() == '.') == (b.last() == '.'));
        if a.last() != '.' {
            let a0 = a.drop_last();
            let b0 = b.drop_last();
            assert forall|i: int| 0 <= i < a0.len() implies (a0[i] == '.') == (b0[i] == '.') by {
                assert(a0[i] == a[i] && b0[i] == b[i]);
            }
            lemma_last_dot_same_dots(a0, b0);
        }
    }
}

/// A valid declared name is stored under a valid name of the same length.
pub proof fn lemma_stored_name_valid(name: Seq<char>)
    requires
        is_valid_name(name),
    ensures
        is_valid_name(stored_name(name)),
        stored_name(name).len() == name.len(),
{
    lemma_stored_name_index(name);
    let stored = stored_name(name);
    assert forall|i: int| 0 <= i < stored.len() implies !is_unsafe_char(#[trigger] stored[i]) by {
        assert(!is_unsafe_char(name[i]));
    }
    if stored == seq!['.'] {
        assert(stored[0] == '.');
        assert(name =~= seq!['.']);
    }
    if stored == seq!['.', '.'] {
        assert(stored[0] == '.' && stored[1] == '.');
        assert(name =~= seq!['.', '.']);
    }
}

/// The stored name keeps the extension of the declared name, in lower case.
pub proof fn lemma_stored_name_keeps_extension(name: Seq<char>)
    ensures
        extension_start(stored_name(name)) == extension_start(name),
        extension_of(stored_name(name)) == lower(extension_of(name)),
        is_valid_name(name) ==> declared_extension(stored_name(name)) == lower(
            declared_extension(name),
        ),
{
    if is_valid_name(name) {
        lemma_stored_name_valid(name);
        lemma_valid_name_is_one_component(name);
        lemma_valid_name_is_one_component(stored_name(name));
    }
    lemma_stored_name_index(name);
    let stored = stored_name(name);
    assert forall|i: int| 0 <= i < name.len() implies (name[i] == '.') == (stored[i] == '.') by {
        assert(stored[i] == name[i] || stored[i] == ascii_lower(name[i]));
    }
    lemma_last_dot_same_dots(name, stored);
    assert(extension_of(stored) =~= lower(extension_of(name)));
}

/// A stored name is stored under itself.
pub proof fn lemma_stored_name_idempotent(name: Seq<char>)
    ensures
        stored_name(stored_name(name)) == stored_name(name),
{
    lemma_stored_name_index(name);
    lemma_stored_name_keeps_extension(name);
    let stored = stored_name(name);
    lemma_stored_name_index(stored);
    assert(stored_name(stored) =~= stored);
}

/// A valid name joined to a folder names an entry directly inside it.
pub proof fn lemma_valid_name_stays_inside(root: Seq<char>, name: Seq<char>)
    requires
        is_valid_name(name),
    ensures
        is_inside(root, resolve(root, name)),
        is_inside(root, resolve(root, stored_name(name))),
{
    lemma_stored_name_valid(name);
}

/// A name that holds a parent step or begins as an absolute path is not
/// valid, and neither is any name that holds a separator.
pub proof fn lemma_traversal_is_invalid(name: Seq<char>)
    requires
        has_parent_step(name) || has_absolute_prefix(name) || name.contains('/') || name.contains(
            '\\',
        ),
    ensures
        !is_valid_name(name),
{
    if has_parent_step(name) {
        let i = choose|i: int| parent_step_at(name, i);
        assert(is_unsafe_char(name[i + 2]));
    } else if has_absolute_prefix(name) {
        if name.len() >= 1 && (name[0] == '/' || name[0] == '\\') {
            assert(is_unsafe_char(name[0]));
        } else {
            assert(is_unsafe_char(name[1]));
        }
    } else if name.contains('/') {
        let i = choose|i: int| 0 <= i < name.len() && name[i] == '/';
        assert(is_unsafe_char(name[i]));
    } else {
        let i = choose|i: int| 0 <= i < name.len() && name[i] == '\\';
        assert(is_unsafe_char(name[i]));
    }
}

/// The folder `root` joined with the segment `name`.
pub fn resolve_path(root: &str, name: &str) -> (path: String)
    ensures
        path@ == resolve(root@, name@),
{
    proof {
        reveal_strlit("/");
        assert("/"@ =~= seq!['/']);
    }
    let mut path = root.to_owned();
    path.append("/");
    path.append(name);
    path
}


/// Whether `c` may not occur in a stored name.
pub fn unsafe_char(c: char) -> (r: bool)
    ensures
        r == is_unsafe_char(c),
{
    c == '/' || c == '\\' || c == ':' || (c as u32) < 0x20 || c as u32 == 0x7f
}

/// `c` with the letters `A` to `Z` mapped to `a` to `z`.
pub fn to_ascii_lower(c: char) -> (r: char)
    ensures
        r == ascii_lower(c),
{
    if 'A' <= c && c <= 'Z' {
        ((c as u8) + 32u8) as char
    } else {
        c
    }
}

/// Whether `name` is accepted as a stored name.
pub fn valid_name(name: &str) -> (ok: bool)
    ensures
        ok == is_valid_name(name@),
{
    let n = name.unicode_len();
    let mut safe = true;
    let mut dots = true;
    for c in it: name.chars()
        invariant
            it.seq() == name@,
            safe == forall|i: int| 0 <= i < it.index() ==> !is_unsafe_char(#[trigger] name@[i]),
            dots == forall|i: int| 0 <= i < it.index() ==> #[trigger] name@[i] == '.',
    {
        if unsafe_char(c) {
            safe = false;
        }
        if c != '.' {
            dots = false;
        }
    }
    proof {
        if dots && n == 1 {
            assert(name@ =~= seq!['.']);
        }
        if dots && n == 2 {
            assert(name@ =~= seq!['.', '.']);
        }
        if name@ == seq!['.'] {
            assert(name@[0] == '.');
        }
        if name@ == seq!['.', '.'] {
            assert(name@[0] == '.' && name@[1] == '.');
        }
    }
    n > 0 && safe && !(dots && n <= 2)
}

/// Where the extension of `name` begins, counted in characters.
pub fn find_extension_start(name: &str) -> (start: usize)
    ensures
        start == extension_start(name@),
        start <= name@.len(),
{
    let n = name.unicode_len();
    let mut dot: Option<usize> = None;
    let mut i: usize = 0;
    for c in it: name.chars()
        invariant
            it.seq() == name@,
            n == name@.len(),
            i == it.index(),
            i <= n,
            match dot {
                Some(d) => d == last_dot(name@.take(i as int)),
                None => last_dot(name@.take(i as int)) == -1,
            },
    {
        proof {
            lemma_last_dot_step(name@, i as int);
        }
        if c == '.' {
            dot = Some(i);
        }
        i = i + 1;
    }
    proof {
        assert(name@.take(n as int) == name@);
        lemma_last_dot(name@);
    }
    match dot {
        Some(d) => if d > 0 {
            d + 1
        } else {
            n
        },
        None => n,
    }
}

/// Where the last component of `path` begins and ends, counted in
/// characters.
pub fn find_last_component(path: &str) -> (range: (usize, usize))
    ensures
        range.0 <= range.1 <= path@.len(),
        path@.subrange(range.0 as int, range.1 as int) == last_component(path@),
{
    let n = path.unicode_len();
    let mut piece: usize = 0;
    let mut start: usize = 0;
    let mut end: usize = 0;
    let mut i: usize = 0;
    proof {
        assert(path@.take(0) =~= Seq::<char>::empty());
        assert(path@.subrange(0, 0) =~= Seq::<char>::empty());
    }
    for c in it: path.chars()
        invariant
            it.seq() == path@,
            n == path@.len(),
            i == it.index(),
            i <= n,
            piece == last_separator(path@.take(i as int)) + 1,
            start <= end <= i,
            path@.subrange(start as int, end as int) == last_component(path@.take(i as int)),
    {
        proof {
            let before = path@.take(i as int);
            let now = path@.take(i + 1);
            lemma_last_separator_step(path@, i as int);
            lemma_last_separator(before);
            assert(now.drop_last() == before);
            assert(now.last() == c);
            if i > 0 {
                assert(now[i - 1] == before[i - 1]);
            }
            if !is_separator(c) && !ends_in_dot_component(now) {
                assert(now.skip(piece as int) =~= path@.subrange(piece as int, i + 1));
            }
        }
        if c == '/' || c == '\\' {
            piece = i + 1;
        } else if !(c == '.' && piece == i) {
            start = piece;
            end = i + 1;
        }
        i = i + 1;
    }
    proof {
        assert(path@.take(n as int) == path@);
    }
    (start, end)
}

/// The extension that a declared name carries, as the client wrote it:
/// what follows the last dot of the last component of the name. There is
/// none for a missing name, and none where nothing follows such a dot.
pub fn get_extension(name: Option<&str>) -> (ext: Option<String>)
    ensures
        match ext {
            Some(e) => {
                &&& name matches Some(n)
                &&& e@ == declared_extension(n@)
                &&& e@.len() > 0
                &&& forall|i: int| 0 <= i < e@.len() ==> e@[i] != '.' && !is_separator(e@[i])
            },
            None => !(name matches Some(n) && declared_extension(n@).len() > 0),
        },
{
    match name {
        None => None,
        Some(path) => {
            let (from, to) = find_last_component(path);
            let component = path.substring_char(from, to);
            let n = component.unicode_len();
            let start = find_extension_start(component);
            if start == n {
                None
            } else {
                proof {
                    lemma_declared_extension(path@);
                }
                Some(component.substring_char(start, n).to_owned())
            }
        },
    }
}

/// The name under which `name` is stored.
pub fn to_stored_name(name: &str) -> (stored: String)
    ensures
        stored@ == stored_name(name@),
{
    let n = name.unicode_len();
    let start = find_extension_start(name);
    let mut stored = name.substring_char(0, start).to_owned();
    let ext = name.substring_char(start, n);
    for c in it: ext.chars()
        invariant
            it.seq() == ext@,
            ext@ == extension_of(name@),
            stored@ == name@.take(start as int) + lower(ext@).take(it.index()),
    {
        proof {
            let k = it.index();
            assert(lower(ext@).take(k + 1) == lower(ext@).take(k).push(ascii_lower(c)));
        }
        stored.push(to_ascii_lower(c));
    }
    proof {
        assert(lower(ext@).take(ext@.len() as int) == lower(ext@));
    }
    stored
}

/// Derives the stored name from what the client declared.
///
/// A missing name and a name that is not a valid single segment are
/// refused; every other name is stored with its extension in lower case.
pub fn sanitize(declared: Option<&str>) -> (r: Result<String, ErrorKind>)
    ensures
        match r {
            Ok(stored) => declared matches Some(name) && is_valid_name(name@) && stored@
                == stored_name(name@),
            Err(kind) => kind == ErrorKind::InvalidName && !(declared matches Some(name)
                && is_valid_name(name@)),
        },
{
    match declared {
        None => Err(ErrorKind::InvalidName),
        Some(name) => {
            if valid_name(name) {
                Ok(to_stored_name(name))
            } else {
                Err(ErrorKind::InvalidName)
            }
        },
    }
}

} // verus!
