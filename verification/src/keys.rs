use crate::artifact::key_of;
use vstd::prelude::*;
use vstd::string::*;

verus! {

/// No colon stands in `s`.
pub open spec fn no_colon(s: Seq<char>) -> bool {
    forall|i: int| 0 <= i < s.len() ==> s[i] != ':'
}

/// The place of the first colon of `s` at or behind `start`, or the length
/// of `s` if there is none.
pub open spec fn colon_from(s: Seq<char>, start: int) -> int
    decreases s.len() - start,
{
    if start < 0 || start >= s.len() {
        s.len() as int
    } else if s[start] == ':' {
        start
    } else {
        colon_from(s, start + 1)
    }
}

/// The place behind the last colon of the first `end` characters of `s`, or
/// 0 if there is none.
pub open spec fn behind_last_colon(s: Seq<char>, end: int) -> int
    decreases end,
{
    if end <= 0 || end > s.len() {
        0
    } else if s[end - 1] == ':' {
        end
    } else {
        behind_last_colon(s, end - 1)
    }
}

/// The source file of a qualified name: what stands before its first colon.
pub open spec fn source_file(key: Seq<char>) -> Seq<char> {
    key.subrange(0, colon_from(key, 0))
}

/// The contract name of a qualified name: what stands between its first and
/// its second colon; all of a name without colon.
pub open spec fn contract_name(key: Seq<char>) -> Seq<char> {
    let first = colon_from(key, 0);
    if first >= key.len() {
        key
    } else {
        key.subrange(first + 1, colon_from(key, first + 1))
    }
}

/// What stands behind the last colon of an identifier; all of it if it has
/// none.
pub open spec fn last_component(id: Seq<char>) -> Seq<char> {
    id.subrange(behind_last_colon(id, id.len() as int), id.len() as int)
}

/// Where the first colon at or behind `start` is: in range, with no colon
/// before it.
pub proof fn lemma_colon_from(s: Seq<char>, start: int)
    requires
        0 <= start <= s.len(),
    ensures
        start <= colon_from(s, start) <= s.len(),
        colon_from(s, start) < s.len() ==> s[colon_from(s, start)] == ':',
        forall|i: int| start <= i < colon_from(s, start) ==> s[i] != ':',
    decreases s.len() - start,
{
    if start < s.len() && s[start] != ':' {
        lemma_colon_from(s, start + 1);
    }
}

/// Where the last colon before `end` is: in range, with no colon behind it.
pub proof fn lemma_behind_last_colon(s: Seq<char>, end: int)
    requires
        0 <= end <= s.len(),
    ensures
        0 <= behind_last_colon(s, end) <= end,
        behind_last_colon(s, end) > 0 ==> s[behind_last_colon(s, end) - 1] == ':',
        forall|i: int| behind_last_colon(s, end) <= i < end ==> s[i] != ':',
    decreases end,
{
    if end > 0 && s[end - 1] != ':' {
        lemma_behind_last_colon(s, end - 1);
    }
}

/// The first colon is where a colon stands behind text without one.
pub proof fn lemma_colon_is(s: Seq<char>, start: int, at: int)
    requires
        0 <= start <= at <= s.len(),
        at < s.len() ==> s[at] == ':',
        forall|i: int| start <= i < at ==> s[i] != ':',
    ensures
        colon_from(s, start) == at,
    decreases at - start,
{
    if start < at {
        lemma_colon_is(s, start + 1, at);
    }
}

/// The last colon is where a colon stands before text without one.
pub proof fn lemma_last_colon_is(s: Seq<char>, end: int, at: int)
    requires
        0 <= at <= end <= s.len(),
        at > 0 ==> s[at - 1] == ':',
        forall|i: int| at <= i < end ==> s[i] != ':',
    ensures
        behind_last_colon(s, end) == at,
    decreases end - at,
{
    if at < end {
        lemma_last_colon_is(s, end - 1, at);
    }
}

/// The qualified name of a contract gives back its source file, as long as
/// the file's name holds no colon.
pub proof fn lemma_source_file_of_key(file: Seq<char>, name: Seq<char>)
    requires
        no_colon(file),
    ensures
        source_file(key_of(file, name)) == file,
{
    let key = key_of(file, name);
    assert(key[file.len() as int] == ':');
    assert forall|i: int| 0 <= i < file.len() implies key[i] != ':' by {
        assert(key[i] == file[i]);
    }
    lemma_colon_is(key, 0, file.len() as int);
    assert(key.subrange(0, file.len() as int) =~= file);
}

/// The qualified name of a contract gives back the contract's name, as long
/// as neither the file's name nor the contract's holds a colon.
pub proof fn lemma_contract_name_of_key(file: Seq<char>, name: Seq<char>)
    requires
        no_colon(file),
        no_colon(name),
    ensures
        contract_name(key_of(file, name)) == name,
        last_component(key_of(file, name)) == name,
{
    let key = key_of(file, name);
    let first = file.len() as int;
    assert(key[first] == ':');
    assert forall|i: int| 0 <= i < first implies key[i] != ':' by {
        assert(key[i] == file[i]);
    }
    assert forall|i: int| first + 1 <= i < key.len() implies key[i] != ':' by {
        assert(key[i] == name[i - first - 1]);
    }
    lemma_colon_is(key, 0, first);
    lemma_colon_is(key, first + 1, key.len() as int);
    lemma_last_colon_is(key, key.len() as int, first + 1);
    assert(key.subrange(first + 1, key.len() as int) =~= name);
}

/// The place of the first colon of `s` at or behind `start`, counted in
/// characters; the number of characters of `s` if there is none.
pub fn find_colon(s: &str, start: usize) -> (at: usize)
    ensures
        at == colon_from(s@, start as int),
{
    let len = s.unicode_len();
    let mut i: usize = start;
    if start >= len {
        return len;
    }
    while i < len
        invariant
            start <= i <= len,
            len == s@.len(),
            colon_from(s@, start as int) == colon_from(s@, i as int),
        decreases len - i,
    {
        if s.get_char(i) == ':' {
            return i;
        }
        i += 1;
    }
    i
}

/// The source file of a qualified name: what stands before its first colon.
pub fn source_file_of(key: &str) -> (file: String)
    ensures
        file@ == source_file(key@),
{
    let at = find_colon(key, 0);
    proof {
        lemma_colon_from(key@, 0);
    }
    String::from_str(key.substring_char(0, at))
}

/// The contract name of a qualified name: what stands between its first and
/// its second colon; all of a name without colon.
pub fn contract_name_of(key: &str) -> (name: String)
    ensures
        name@ == contract_name(key@),
{
    let len = key.unicode_len();
    let first = find_colon(key, 0);
    proof {
        lemma_colon_from(key@, 0);
    }
    if first >= len {
        String::from_str(key)
    } else {
        let second = find_colon(key, first + 1);
        proof {
            lemma_colon_from(key@, first + 1);
        }
        String::from_str(key.substring_char(first + 1, second))
    }
}

/// The contract name of an artifact identifier such as
/// `Token.json:Token`: what stands behind its last colon, or all of an
/// identifier without colon.
pub fn get_contract_name(id: &str) -> (name: &str)
    ensures
        name@ == last_component(id@),
{
    let len = id.unicode_len();
    let mut end: usize = len;
    while end > 0 && id.get_char(end - 1) != ':'
        invariant
            end <= len,
            len == id@.len(),
            behind_last_colon(id@, len as int) == behind_last_colon(id@, end as int),
        decreases end,
    {
        end -= 1;
    }
    proof {
        lemma_behind_last_colon(id@, len as int);
    }
    id.substring_char(end, len)
}

} // verus!
