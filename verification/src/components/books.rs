//! The `minecraft:writable_book_content` and `minecraft:written_book_content`
//! item components.

use vstd::prelude::*;
use vstd::utf8::*;
use crate::nbt::{NbtTag, compound_get, compound_lookup, entry, lemma_compound_lookup_push};
use crate::wire::{
    WireError, bool_byte, concat_map, lemma_bool_round_trip, lemma_bounded_count_round_trip,
    lemma_concat_map_map_values, lemma_concat_map_push, lemma_network_string_round_trip, lemma_prepend_items_assoc,
    lemma_read_seq_round_trip, max_string_bytes, prepend_items, read_bool, read_bounded_count,
    read_network_string, spec_read_bool, spec_read_bounded_count, spec_read_network_string,
    spec_read_seq, string_bytes, string_fits, string_too_long, utf16_len, varint_bytes,
    write_bool, write_network_string, write_varint,
};

verus! {

/// The character bound of a network string.
pub const MAX_NETWORK_STRING_LENGTH: usize = 32_767;

/// Raw text with the optional text a chat filter left of it.
#[derive(Debug, Clone, PartialEq, Eq)]
pub struct Filterable<T> {
    raw: T,
    filtered: Option<T>,
}

impl<T> Filterable<T> {
    /// The raw text.
    pub closed spec fn spec_raw(self) -> T {
        self.raw
    }

    /// The filtered text, if any.
    pub closed spec fn spec_filtered(self) -> Option<T> {
        self.filtered
    }

    /// `raw`, with `filtered` as its filtered form.
    pub fn new(raw: T, filtered: Option<T>) -> (res: Self)
        ensures
            res.spec_raw() == raw,
            res.spec_filtered() == filtered,
    {
        Filterable { raw, filtered }
    }

    /// `raw`, with no filtered form.
    pub fn pass_through(raw: T) -> (res: Self)
        ensures
            res.spec_raw() == raw,
            res.spec_filtered() == None::<T>,
    {
        Filterable { raw, filtered: None }
    }

    /// The raw text.
    pub fn raw(&self) -> (res: &T)
        ensures
            *res == self.spec_raw(),
    {
        &self.raw
    }

    /// The filtered text, if any.
    pub fn filtered(&self) -> (res: Option<&T>)
        ensures
            match self.spec_filtered() {
                Some(f) => res == Some(&f),
                None => res is None,
            },
    {
        match &self.filtered {
            Some(f) => Some(f),
            None => None,
        }
    }

    /// The text to show: the filtered form where filtering is on and there
    /// is one, else the raw text.
    pub fn get(&self, filter_enabled: bool) -> (res: &T)
        ensures
            *res == (if filter_enabled && self.spec_filtered() is Some { self.spec_filtered()->0 } else { self.spec_raw() }),
    {
        if filter_enabled {
            match &self.filtered {
                Some(f) => f,
                None => &self.raw,
            }
        } else {
            &self.raw
        }
    }
}

/// Whether both forms of a filterable string are within `max_length` UTF-16 units.
pub open spec fn filterable_within(value: Filterable<String>, max_length: int) -> bool {
    &&& utf16_len(value.spec_raw()@) <= max_length
    &&& (value.spec_filtered() matches Some(f) ==> utf16_len(f@) <= max_length)
}

/// Whether both forms of a filterable string fit the network bounds of `max_length`.
pub open spec fn filterable_fits(value: Filterable<String>, max_length: int) -> bool {
    &&& string_fits(value.spec_raw()@, max_length)
    &&& (value.spec_filtered() matches Some(f) ==> string_fits(f@, max_length))
}

/// The network form of a filterable string: the raw string, whether a
/// filtered form follows, then the filtered string.
pub open spec fn filterable_string_bytes(value: Filterable<String>) -> Seq<u8> {
    string_bytes(value.spec_raw()@) + match value.spec_filtered() {
        Some(f) => seq![bool_byte(true)] + string_bytes(f@),
        None => seq![bool_byte(false)],
    }
}

/// Writes a filterable string whose forms must fit `max_length` characters.
pub fn write_filterable_string(buf: &mut Vec<u8>, value: &Filterable<String>, max_length: usize) -> (res: Result<(), WireError>)
    requires
        max_length <= i32::MAX / 3,
    ensures
        res is Ok <==> filterable_fits(*value, max_length as int),
        res is Ok ==> final(buf)@ == old(buf)@ + filterable_string_bytes(*value),
{
    write_network_string(buf, value.raw.as_str(), max_length)?;
    let ghost mid = buf@;
    match &value.filtered {
        Some(f) => {
            write_bool(buf, true);
            write_network_string(buf, f.as_str(), max_length)?;
        },
        None => {
            write_bool(buf, false);
        },
    }
    assert(buf@ =~= old(buf)@ + filterable_string_bytes(*value));
    Ok(())
}

/// Reads a filterable string whose forms must fit `max_length` characters:
/// the raw and filtered forms it holds.
pub open spec fn spec_read_filterable_string(s: Seq<u8>, pos: int, max_length: int) -> Result<((Seq<char>, Option<Seq<char>>), int), WireError> {
    match spec_read_network_string(s, pos, max_length) {
        Err(e) => Err(e),
        Ok((raw, p1)) => match spec_read_bool(s, p1) {
            Err(e) => Err(e),
            Ok((has_filtered, p2)) => if has_filtered {
                match spec_read_network_string(s, p2, max_length) {
                    Err(e) => Err(e),
                    Ok((f, end)) => Ok(((raw, Some(f)), end)),
                }
            } else {
                Ok(((raw, None), p2))
            },
        },
    }
}

/// `es` is the persistent compound of a filterable string: the raw form
/// under `raw`, then the filtered form, if any, under `filtered`.
pub open spec fn is_filterable_nbt(value: Filterable<String>, es: Seq<(String, NbtTag)>) -> bool {
    &&& compound_lookup(es, "raw"@) matches Some(NbtTag::String(r)) && r@ == value.spec_raw()@
    &&& match value.spec_filtered() {
        Some(f) => compound_lookup(es, "filtered"@) matches Some(NbtTag::String(t)) && t@ == f@,
        None => compound_lookup(es, "filtered"@) is None,
    }
}

/// The persistent compound of a filterable string.
pub fn filterable_string_nbt(value: &Filterable<String>) -> (res: Vec<(String, NbtTag)>)
    ensures
        is_filterable_nbt(*value, res@),
{
    proof {
        reveal_strlit("raw");
        reveal_strlit("filtered");
        assert("raw"@.len() != "filtered"@.len());
    }
    let mut es: Vec<(String, NbtTag)> = Vec::new();
    let e = entry("raw", NbtTag::String(value.raw.clone()));
    proof {
        lemma_compound_lookup_push(es@, e, "raw"@);
        lemma_compound_lookup_push(es@, e, "filtered"@);
    }
    es.push(e);
    match &value.filtered {
        Some(f) => {
            let e = entry("filtered", NbtTag::String(f.clone()));
            proof {
                lemma_compound_lookup_push(es@, e, "raw"@);
                lemma_compound_lookup_push(es@, e, "filtered"@);
            }
            es.push(e);
        },
        None => {},
    }
    es
}

/// Reads the persistent form of a filterable string whose forms must be
/// within `max_length` UTF-16 units: a compound with a `raw` string and an
/// optional `filtered` string, or else a plain string, the raw form.
pub open spec fn spec_filterable_string_from_nbt(tag: NbtTag, max_length: int) -> Option<(Seq<char>, Option<Seq<char>>)> {
    if tag matches NbtTag::Compound(es) && compound_lookup(es@, "raw"@) is Some {
        let es = tag->Compound_0;
        match compound_lookup(es@, "raw"@) {
            Some(NbtTag::String(raw)) => {
                let filtered = match compound_lookup(es@, "filtered"@) {
                    Some(NbtTag::String(f)) => Some(Some(f@)),
                    Some(_) => None,
                    None => Some(None::<Seq<char>>),
                };
                match filtered {
                    Some(f) => if utf16_len(raw@) <= max_length && (f matches Some(t) ==> utf16_len(t) <= max_length) {
                        Some((raw@, f))
                    } else {
                        None
                    },
                    None => None,
                }
            },
            _ => None,
        }
    } else {
        match tag {
            NbtTag::String(raw) => if utf16_len(raw@) <= max_length { Some((raw@, None)) } else { None },
            _ => None,
        }
    }
}

/// Reads the persistent form of a filterable string whose forms must be
/// within `max_length` UTF-16 units.
pub fn filterable_string_from_nbt(tag: &NbtTag, max_length: usize) -> (res: Option<Filterable<String>>)
    ensures
        match (res, spec_filterable_string_from_nbt(*tag, max_length as int)) {
            (Some(v), Some(chars)) => filterable_chars(v) == chars,
            (None, None) => true,
            _ => false,
        },
{
    match tag {
        NbtTag::Compound(es) => {
            match compound_get(es, "raw") {
                Some(raw_tag) => {
                    let raw = match raw_tag {
                        NbtTag::String(r) => r,
                        _ => return None,
                    };
                    let filtered = match compound_get(es, "filtered") {
                        Some(NbtTag::String(f)) => Some(f.clone()),
                        Some(_) => return None,
                        None => None,
                    };
                    if string_too_long(raw.as_str(), max_length) {
                        return None;
                    }
                    match &filtered {
                        Some(f) => {
                            if string_too_long(f.as_str(), max_length) {
                                return None;
                            }
                        },
                        None => {},
                    }
                    return Some(Filterable { raw: raw.clone(), filtered });
                },
                None => return None,
            }
        },
        NbtTag::String(raw) => {
            if string_too_long(raw.as_str(), max_length) {
                None
            } else {
                Some(Filterable { raw: raw.clone(), filtered: None })
            }
        },
        _ => None,
    }
}

/// Law: the persistent compound of a filterable string within the bound
/// reads back as the same forms.
pub proof fn lemma_filterable_nbt_round_trip(value: Filterable<String>, es: Vec<(String, NbtTag)>, max_length: int)
    requires
        is_filterable_nbt(value, es@),
        filterable_within(value, max_length),
    ensures
        spec_filterable_string_from_nbt(NbtTag::Compound(es), max_length) == Some(filterable_chars(value)),
{
}

/// The raw and filtered forms of a filterable string, as characters.
pub open spec fn filterable_chars(value: Filterable<String>) -> (Seq<char>, Option<Seq<char>>) {
    (value.spec_raw()@, match value.spec_filtered() {
        Some(f) => Some(f@),
        None => None,
    })
}

/// Reads a filterable string whose forms must fit `max_length` characters.
pub fn read_filterable_string(data: &[u8], pos: usize, max_length: usize) -> (res: Result<(Filterable<String>, usize), WireError>)
    ensures
        match (res, spec_read_filterable_string(data@, pos as int, max_length as int)) {
            (Ok((v, end)), Ok((chars, send))) => filterable_chars(v) == chars && end == send,
            (Err(e), Err(se)) => e == se,
            _ => false,
        },
{
    let (raw, p1) = read_network_string(data, pos, max_length)?;
    let (has_filtered, p2) = read_bool(data, p1)?;
    if has_filtered {
        let (f, end) = read_network_string(data, p2, max_length)?;
        Ok((Filterable::new(raw, Some(f)), end))
    } else {
        Ok((Filterable::new(raw, None), p2))
    }
}

/// Law: a filterable string that fits reads back with the same forms.
pub proof fn lemma_filterable_string_round_trip(pre: Seq<u8>, value: Filterable<String>, max_length: int, rest: Seq<u8>)
    requires
        filterable_fits(value, max_length),
        max_length <= i32::MAX / 3,
    ensures
        spec_read_filterable_string(pre + filterable_string_bytes(value) + rest, pre.len() as int, max_length)
            == Ok::<((Seq<char>, Option<Seq<char>>), int), WireError>((filterable_chars(value), (pre.len() + filterable_string_bytes(value).len()) as int)),
{
    let raw = string_bytes(value.spec_raw()@);
    let s = pre + filterable_string_bytes(value) + rest;
    match value.spec_filtered() {
        Some(f) => {
            let fb = string_bytes(f@);
            assert(s =~= pre + raw + (seq![bool_byte(true)] + fb + rest));
            lemma_network_string_round_trip(pre, value.spec_raw()@, max_length, seq![bool_byte(true)] + fb + rest);
            let q1 = pre + raw;
            assert(s =~= q1.push(bool_byte(true)) + (fb + rest));
            lemma_bool_round_trip(q1, true, fb + rest);
            let q2 = q1.push(bool_byte(true));
            assert(s =~= q2 + fb + rest);
            lemma_network_string_round_trip(q2, f@, max_length, rest);
        },
        None => {
            assert(s =~= pre + raw + (seq![bool_byte(false)] + rest));
            lemma_network_string_round_trip(pre, value.spec_raw()@, max_length, seq![bool_byte(false)] + rest);
            let q1 = pre + raw;
            assert(s =~= q1.push(bool_byte(false)) + rest);
            lemma_bool_round_trip(q1, false, rest);
        },
    }
}

/// The pages of a book and quill.
#[derive(Debug, Clone, PartialEq, Eq)]
pub struct WritableBookContent {
    pages: Vec<Filterable<String>>,
}

/// The network form of one page, as a function for list encodings.
pub open spec fn page_bytes() -> spec_fn(Filterable<String>) -> Seq<u8> {
    |p: Filterable<String>| filterable_string_bytes(p)
}

/// The network reader of one page, as a function for list decodings.
pub open spec fn page_reader() -> spec_fn(Seq<u8>, int) -> Result<((Seq<char>, Option<Seq<char>>), int), WireError> {
    |s: Seq<u8>, pos: int| spec_read_filterable_string(s, pos, WritableBookContent::PAGE_EDIT_LENGTH as int)
}

impl Default for WritableBookContent {
    fn default() -> (res: Self)
        ensures
            res.spec_pages() == Seq::<Filterable<String>>::empty(),
    {
        WritableBookContent::empty()
    }
}

impl WritableBookContent {
    /// The most characters a page holds.
    pub const PAGE_EDIT_LENGTH: usize = 1024;

    /// The most pages a book holds.
    pub const MAX_PAGES: usize = 100;

    /// The pages, in order.
    pub closed spec fn spec_pages(self) -> Seq<Filterable<String>> {
        self.pages@
    }

    /// Whether `pages` may be the pages of a book: at most the maximum
    /// number, each form of each page within the page length.
    pub open spec fn pages_valid(pages: Seq<Filterable<String>>) -> bool {
        &&& pages.len() <= Self::MAX_PAGES
        &&& forall|i: int| 0 <= i < pages.len() ==> #[trigger] filterable_within(pages[i], Self::PAGE_EDIT_LENGTH as int)
    }

    /// A book without pages.
    pub fn empty() -> (res: Self)
        ensures
            res.spec_pages() == Seq::<Filterable<String>>::empty(),
    {
        WritableBookContent { pages: Vec::new() }
    }

    /// A book of `pages`; too many pages, or a page form over the page
    /// length, is refused.
    pub fn new(pages: Vec<Filterable<String>>) -> (res: Result<Self, WireError>)
        ensures
            res is Ok <==> Self::pages_valid(pages@),
            res matches Ok(b) ==> b.spec_pages() == pages@,
            res matches Err(e) ==> e == (if pages@.len() > Self::MAX_PAGES { WireError::TooMany } else { WireError::StringTooLong }),
    {
        if pages.len() > Self::MAX_PAGES {
            return Err(WireError::TooMany);
        }
        let mut i: usize = 0;
        while i < pages.len()
            invariant
                i <= pages@.len() <= Self::MAX_PAGES,
                forall|j: int| 0 <= j < i ==> #[trigger] filterable_within(pages@[j], Self::PAGE_EDIT_LENGTH as int),
            decreases pages.len() - i,
        {
            let page = &pages[i];
            let too_long = string_too_long(page.raw.as_str(), Self::PAGE_EDIT_LENGTH) || match &page.filtered {
                Some(f) => string_too_long(f.as_str(), Self::PAGE_EDIT_LENGTH),
                None => false,
            };
            if too_long {
                assert(!filterable_within(pages@[i as int], Self::PAGE_EDIT_LENGTH as int));
                return Err(WireError::StringTooLong);
            }
            i = i + 1;
        }
        Ok(WritableBookContent { pages })
    }

    /// The pages, in order.
    pub fn pages(&self) -> (res: &[Filterable<String>])
        ensures
            res@ == self.spec_pages(),
    {
        self.pages.as_slice()
    }

    /// Whether every page form fits the network bounds.
    pub open spec fn encodable(self) -> bool {
        &&& self.spec_pages().len() <= Self::MAX_PAGES
        &&& forall|i: int| 0 <= i < self.spec_pages().len() ==> #[trigger] filterable_fits(self.spec_pages()[i], Self::PAGE_EDIT_LENGTH as int)
    }

    /// The network form: the page count, then each page.
    pub open spec fn spec_bytes(self) -> Seq<u8> {
        varint_bytes(self.spec_pages().len() as i32) + concat_map(self.spec_pages(), page_bytes())
    }

    /// Writes the network form.
    pub fn write(&self, buf: &mut Vec<u8>) -> (res: Result<(), WireError>)
        ensures
            res is Ok <==> self.encodable(),
            res is Ok ==> final(buf)@ == old(buf)@ + self.spec_bytes(),
    {
        if self.pages.len() > Self::MAX_PAGES {
            return Err(WireError::TooMany);
        }
        write_varint(buf, self.pages.len() as i32);
        let ghost start = buf@;
        let mut i: usize = 0;
        assert(self.pages@.take(0) =~= Seq::<Filterable<String>>::empty());
        while i < self.pages.len()
            invariant
                i <= self.pages@.len(),
                buf@ == start + concat_map(self.pages@.take(i as int), page_bytes()),
                forall|j: int| 0 <= j < i ==> #[trigger] filterable_fits(self.pages@[j], Self::PAGE_EDIT_LENGTH as int),
            decreases self.pages.len() - i,
        {
            match write_filterable_string(buf, &self.pages[i], Self::PAGE_EDIT_LENGTH) {
                Ok(()) => {},
                Err(e) => {
                    assert(!filterable_fits(self.spec_pages()[i as int], Self::PAGE_EDIT_LENGTH as int));
                    return Err(e);
                },
            }
            proof {
                lemma_concat_map_push(self.pages@.take(i as int), self.pages@[i as int], page_bytes());
                assert(self.pages@.take(i as int).push(self.pages@[i as int]) =~= self.pages@.take(i + 1));
            }
            i = i + 1;
        }
        assert(self.pages@.take(i as int) =~= self.pages@);
        assert(final(buf)@ =~= old(buf)@ + self.spec_bytes());
        Ok(())
    }

    /// Reads the network form: at most the maximum number of pages, each
    /// within the page length; what comes back, as characters.
    pub open spec fn spec_read(s: Seq<u8>, pos: int) -> Result<(Seq<(Seq<char>, Option<Seq<char>>)>, int), WireError> {
        match spec_read_bounded_count(s, pos, Self::MAX_PAGES as int) {
            Err(e) => Err(e),
            Ok((count, next)) => spec_read_seq(s, next, count as nat, page_reader()),
        }
    }

    /// The pages, as characters.
    pub open spec fn page_chars(self) -> Seq<(Seq<char>, Option<Seq<char>>)> {
        self.spec_pages().map_values(|p: Filterable<String>| filterable_chars(p))
    }

    /// Reads the network form.
    #[verifier::rlimit(40)]
    pub fn read(data: &[u8], pos: usize) -> (res: Result<(WritableBookContent, usize), WireError>)
        ensures
            match (res, Self::spec_read(data@, pos as int)) {
                (Ok((v, end)), Ok((pages, send))) => v.page_chars() == pages && end == send,
                (Err(e), Err(se)) => e == se,
                _ => false,
            },
    {
        let (count, next) = read_bounded_count(data, pos, Self::MAX_PAGES)?;
        let ghost reader = page_reader();
        let mut pages: Vec<Filterable<String>> = Vec::new();
        let ghost mut got: Seq<(Seq<char>, Option<Seq<char>>)> = Seq::empty();
        let mut cur = next;
        let mut i: usize = 0;
        assert(got + Seq::<(Seq<char>, Option<Seq<char>>)>::empty() =~= got);
        while i < count
            invariant
                i <= count <= Self::MAX_PAGES,
                reader == page_reader(),
                pages@.len() == i,
                got == pages@.map_values(|p: Filterable<String>| filterable_chars(p)),
                forall|j: int| 0 <= j < i ==> #[trigger] filterable_within(pages@[j], Self::PAGE_EDIT_LENGTH as int),
                Self::spec_read(data@, pos as int) == spec_read_seq(data@, next as int, count as nat, reader),
                spec_read_seq(data@, next as int, count as nat, reader)
                    == prepend_items(got, spec_read_seq(data@, cur as int, (count - i) as nat, reader)),
            decreases count - i,
        {
            let ghost rest = spec_read_seq(data@, cur as int, (count - i) as nat, reader);
            let (page, end) = match read_filterable_string(data, cur, Self::PAGE_EDIT_LENGTH) {
                Ok(r) => r,
                Err(e) => {
                    assert(rest == Err::<(Seq<(Seq<char>, Option<Seq<char>>)>, int), WireError>(e));
                    return Err(e);
                },
            };
            proof {
                let tail = spec_read_seq(data@, end as int, (count - i - 1) as nat, reader);
                assert(reader(data@, cur as int) == Ok::<((Seq<char>, Option<Seq<char>>), int), WireError>((filterable_chars(page), end as int)));
                assert(rest == prepend_items(seq![filterable_chars(page)], tail));
                lemma_prepend_items_assoc(got, seq![filterable_chars(page)], tail);
                assert(filterable_within(page, Self::PAGE_EDIT_LENGTH as int));
            }
            let ghost before = pages@;
            pages.push(page);
            proof {
                assert(pages@ =~= before.push(page));
                assert(pages@.map_values(|p: Filterable<String>| filterable_chars(p)) =~= got + seq![filterable_chars(page)]);
                got = got + seq![filterable_chars(page)];
            }
            cur = end;
            i = i + 1;
        }
        assert(got + Seq::<(Seq<char>, Option<Seq<char>>)>::empty() =~= got);
        Ok((WritableBookContent { pages }, cur))
    }
}

/// Law: the network form of a book and quill reads back with the same pages.
pub proof fn lemma_writable_book_round_trip(pre: Seq<u8>, v: WritableBookContent, rest: Seq<u8>)
    requires
        v.encodable(),
    ensures
        WritableBookContent::spec_read(pre + v.spec_bytes() + rest, pre.len() as int)
            == Ok::<(Seq<(Seq<char>, Option<Seq<char>>)>, int), WireError>((v.page_chars(), (pre.len() + v.spec_bytes().len()) as int)),
{
    let ps = v.spec_pages();
    let a = varint_bytes(ps.len() as i32);
    let b = concat_map(ps, page_bytes());
    let s = pre + v.spec_bytes() + rest;
    assert(s =~= pre + a + (b + rest));
    lemma_bounded_count_round_trip(pre, ps.len() as int, WritableBookContent::MAX_PAGES as int, b + rest);
    lemma_page_list_round_trip(pre + a, ps, rest);
    assert(pre + a + b + rest =~= s);
}

impl WritableBookContent {
    /// `tag` is the persistent form: a compound that, when there are pages,
    /// holds under `pages` a list of each page's compound, in order.
    pub open spec fn is_nbt_form(self, tag: NbtTag) -> bool {
        &&& tag matches NbtTag::Compound(es)
        &&& if self.spec_pages().len() == 0 {
            compound_lookup(es@, "pages"@) is None
        } else {
            compound_lookup(es@, "pages"@) matches Some(NbtTag::List(items)) && page_list_form(items@, self.spec_pages())
        }
    }

    /// The persistent form.
    pub fn to_nbt_tag(&self) -> (res: NbtTag)
        ensures
            self.is_nbt_form(res),
    {
        let mut es: Vec<(String, NbtTag)> = Vec::new();
        if self.pages.len() > 0 {
            let mut items: Vec<NbtTag> = Vec::new();
            let mut i: usize = 0;
            while i < self.pages.len()
                invariant
                    i <= self.pages@.len(),
                    items@.len() == i,
                    forall|j: int| 0 <= j < i ==> (#[trigger] items@[j] matches NbtTag::Compound(c)
                        && is_filterable_nbt(self.pages@[j], c@)),
                decreases self.pages.len() - i,
            {
                items.push(NbtTag::Compound(filterable_string_nbt(&self.pages[i])));
                i = i + 1;
            }
            proof {
                assert(page_list_form(items@, self.spec_pages()));
            }
            let e = entry("pages", NbtTag::List(items));
            proof {
                lemma_compound_lookup_push(es@, e, "pages"@);
            }
            es.push(e);
        }
        NbtTag::Compound(es)
    }

    /// The pages a persistent list's items give; `None` where one is not a
    /// filterable string within the page length.
    pub open spec fn spec_nbt_pages(items: Seq<NbtTag>) -> Option<Seq<(Seq<char>, Option<Seq<char>>)>>
        decreases items.len(),
    {
        if items.len() == 0 {
            Some(Seq::empty())
        } else {
            match spec_filterable_string_from_nbt(items[0], Self::PAGE_EDIT_LENGTH as int) {
                Some(p) => match Self::spec_nbt_pages(items.drop_first()) {
                    Some(rest) => Some(seq![p] + rest),
                    None => None,
                },
                None => None,
            }
        }
    }

    /// Reads the persistent form: a compound whose optional `pages` is a list
    /// of at most 100 filterable strings within the page length.
    pub open spec fn spec_from_nbt(tag: NbtTag) -> Option<Seq<(Seq<char>, Option<Seq<char>>)>> {
        match tag {
            NbtTag::Compound(es) => match compound_lookup(es@, "pages"@) {
                None => Some(Seq::empty()),
                Some(NbtTag::List(items)) => if items@.len() > Self::MAX_PAGES {
                    None
                } else {
                    Self::spec_nbt_pages(items@)
                },
                Some(_) => None,
            },
            _ => None,
        }
    }

    /// Reads the persistent form.
    pub fn from_nbt_tag(tag: &NbtTag) -> (res: Option<WritableBookContent>)
        ensures
            match (res, Self::spec_from_nbt(*tag)) {
                (Some(v), Some(pages)) => v.page_chars() == pages,
                (None, None) => true,
                _ => false,
            },
    {
        let es = match tag {
            NbtTag::Compound(es) => es,
            _ => return None,
        };
        let items = match compound_get(es, "pages") {
            None => return Some(WritableBookContent::empty_with_chars()),
            Some(NbtTag::List(items)) => items,
            Some(_) => return None,
        };
        if items.len() > Self::MAX_PAGES {
            return None;
        }
        let mut pages: Vec<Filterable<String>> = Vec::new();
        let mut i: usize = 0;
        assert(items@.skip(0) =~= items@);
        while i < items.len()
            invariant
                items@.len() <= Self::MAX_PAGES,
                i <= items@.len(),
                pages@.len() == i,
                Self::spec_from_nbt(*tag) == Self::spec_nbt_pages(items@),
                forall|j: int| 0 <= j < i ==> #[trigger] filterable_within(pages@[j], Self::PAGE_EDIT_LENGTH as int),
                Self::spec_nbt_pages(items@) == match Self::spec_nbt_pages(items@.skip(i as int)) {
                    Some(rest) => Some(pages@.map_values(|p: Filterable<String>| filterable_chars(p)) + rest),
                    None => None::<Seq<(Seq<char>, Option<Seq<char>>)>>,
                },
            decreases items.len() - i,
        {
            let ghost cur = items@.skip(i as int);
            assert(cur.drop_first() =~= items@.skip(i + 1));
            assert(cur[0] == items@[i as int]);
            let page = match filterable_string_from_nbt(&items[i], Self::PAGE_EDIT_LENGTH) {
                Some(page) => page,
                None => return None,
            };
            proof {
                let tail = Self::spec_nbt_pages(items@.skip(i + 1));
                match tail {
                    Some(rest) => {
                        assert(pages@.map_values(|p: Filterable<String>| filterable_chars(p)) + (seq![filterable_chars(page)] + rest)
                            =~= pages@.push(page).map_values(|p: Filterable<String>| filterable_chars(p)) + rest);
                    },
                    None => {},
                }
            }
            pages.push(page);
            i = i + 1;
        }
        assert(items@.skip(i as int) =~= Seq::<NbtTag>::empty());
        assert(pages@.map_values(|p: Filterable<String>| filterable_chars(p)) + Seq::<(Seq<char>, Option<Seq<char>>)>::empty()
            =~= pages@.map_values(|p: Filterable<String>| filterable_chars(p)));
        match WritableBookContent::new(pages) {
            Ok(b) => Some(b),
            Err(_) => None,
        }
    }

    /// A book without pages, as the persistent reader builds it.
    fn empty_with_chars() -> (res: Self)
        ensures
            res.page_chars() == Seq::<(Seq<char>, Option<Seq<char>>)>::empty(),
    {
        let res = WritableBookContent::empty();
        assert(res.page_chars() =~= Seq::<(Seq<char>, Option<Seq<char>>)>::empty());
        res
    }
}

/// `items` holds the persistent compound of each of `pages`, in order.
pub open spec fn page_list_form(items: Seq<NbtTag>, pages: Seq<Filterable<String>>) -> bool {
    &&& items.len() == pages.len()
    &&& forall|i: int| 0 <= i < items.len() ==> (#[trigger] items[i] matches NbtTag::Compound(c)
        && is_filterable_nbt(pages[i], c@))
}

/// The persistent items of valid pages read back as the pages' characters.
proof fn lemma_nbt_pages_round_trip(items: Seq<NbtTag>, pages: Seq<Filterable<String>>)
    requires
        page_list_form(items, pages),
        forall|i: int| 0 <= i < pages.len() ==> #[trigger] filterable_within(pages[i], WritableBookContent::PAGE_EDIT_LENGTH as int),
    ensures
        WritableBookContent::spec_nbt_pages(items) == Some(pages.map_values(|p: Filterable<String>| filterable_chars(p))),
    decreases items.len(),
{
    if items.len() == 0 {
        assert(pages.map_values(|p: Filterable<String>| filterable_chars(p)) =~= Seq::<(Seq<char>, Option<Seq<char>>)>::empty());
    } else {
        assert(items[0] matches NbtTag::Compound(c) && is_filterable_nbt(pages[0], c@));
        assert(filterable_within(pages[0], WritableBookContent::PAGE_EDIT_LENGTH as int));
        lemma_filterable_nbt_round_trip(pages[0], items[0]->Compound_0, WritableBookContent::PAGE_EDIT_LENGTH as int);
        let tail = pages.drop_first();
        assert forall|i: int| 0 <= i < items.drop_first().len() implies (#[trigger] items.drop_first()[i] matches NbtTag::Compound(c)
            && is_filterable_nbt(tail[i], c@)) by {
            assert(items[i + 1] matches NbtTag::Compound(c) && is_filterable_nbt(pages[i + 1], c@));
        }
        assert forall|i: int| 0 <= i < tail.len() implies #[trigger] filterable_within(tail[i], WritableBookContent::PAGE_EDIT_LENGTH as int) by {
            assert(filterable_within(pages[i + 1], WritableBookContent::PAGE_EDIT_LENGTH as int));
        }
        lemma_nbt_pages_round_trip(items.drop_first(), tail);
        assert(seq![filterable_chars(pages[0])] + tail.map_values(|p: Filterable<String>| filterable_chars(p))
            =~= pages.map_values(|p: Filterable<String>| filterable_chars(p)));
    }
}

/// Law: the persistent form of a book and quill whose pages are valid reads
/// back with the same pages.
pub proof fn lemma_writable_book_nbt_round_trip(v: WritableBookContent, tag: NbtTag)
    requires
        WritableBookContent::pages_valid(v.spec_pages()),
        v.is_nbt_form(tag),
    ensures
        WritableBookContent::spec_from_nbt(tag) == Some(v.page_chars()),
{
    let es = tag->Compound_0;
    if v.spec_pages().len() == 0 {
        assert(v.page_chars() =~= Seq::<(Seq<char>, Option<Seq<char>>)>::empty());
    } else {
        let items = compound_lookup(es@, "pages"@)->Some_0->List_0;
        lemma_nbt_pages_round_trip(items@, v.spec_pages());
    }
}

/// A list of pages written one after the other reads back as their characters.
proof fn lemma_page_list_round_trip(pre: Seq<u8>, ps: Seq<Filterable<String>>, rest: Seq<u8>)
    requires
        forall|i: int| 0 <= i < ps.len() ==> #[trigger] filterable_fits(ps[i], WritableBookContent::PAGE_EDIT_LENGTH as int),
    ensures
        spec_read_seq(pre + concat_map(ps, page_bytes()) + rest, pre.len() as int, ps.len(), page_reader())
            == Ok::<(Seq<(Seq<char>, Option<Seq<char>>)>, int), WireError>(
                (ps.map_values(|p: Filterable<String>| filterable_chars(p)), (pre.len() + concat_map(ps, page_bytes()).len()) as int)),
    decreases ps.len(),
{
    if ps.len() == 0 {
        assert(ps.map_values(|p: Filterable<String>| filterable_chars(p)) =~= Seq::<(Seq<char>, Option<Seq<char>>)>::empty());
        assert(pre + concat_map(ps, page_bytes()) + rest =~= pre + rest);
    } else {
        let x = ps[0];
        let tail = ps.drop_first();
        let xb = filterable_string_bytes(x);
        let whole = pre + concat_map(ps, page_bytes()) + rest;
        assert(concat_map(ps, page_bytes()) == xb + concat_map(tail, page_bytes()));
        assert(whole =~= pre + xb + (concat_map(tail, page_bytes()) + rest));
        assert(ps[0] == x);
        lemma_filterable_string_round_trip(pre, x, WritableBookContent::PAGE_EDIT_LENGTH as int, concat_map(tail, page_bytes()) + rest);
        assert forall|i: int| 0 <= i < tail.len() implies #[trigger] filterable_fits(tail[i], WritableBookContent::PAGE_EDIT_LENGTH as int) by {
            assert(tail[i] == ps[i + 1]);
        }
        let pre2 = pre + xb;
        lemma_page_list_round_trip(pre2, tail, rest);
        assert(pre2 + concat_map(tail, page_bytes()) + rest =~= whole);
        assert(seq![filterable_chars(x)] + tail.map_values(|p: Filterable<String>| filterable_chars(p))
            =~= ps.map_values(|p: Filterable<String>| filterable_chars(p)));
        assert(page_reader()(whole, pre.len() as int) == Ok::<((Seq<char>, Option<Seq<char>>), int), WireError>((filterable_chars(x), pre2.len() as int)));
        assert((ps.len() - 1) as nat == tail.len());
    }
}

/// A signed book: its title, author, generation, pages and whether its
/// pages have been resolved.
///
/// `P` is the type of the page text.
#[derive(Debug, Clone, PartialEq, Eq)]
pub struct WrittenBookContent<P> {
    title: Filterable<String>,
    author: String,
    generation: i32,
    pages: Vec<Filterable<P>>,
    resolved: bool,
}

impl<P> WrittenBookContent<P> {
    /// The most characters a title holds.
    pub const TITLE_MAX_LENGTH: usize = 32;

    /// The highest generation (copy of a copy).
    pub const MAX_GENERATION: i32 = 3;

    /// The most characters a page holds.
    pub const PAGE_LENGTH: usize = 32_767;

    /// The title.
    pub closed spec fn spec_title(self) -> Filterable<String> {
        self.title
    }

    /// The author.
    pub closed spec fn spec_author(self) -> String {
        self.author
    }

    /// The generation.
    pub closed spec fn spec_generation(self) -> i32 {
        self.generation
    }

    /// The pages, in order.
    pub closed spec fn spec_pages(self) -> Seq<Filterable<P>> {
        self.pages@
    }

    /// Whether the pages have been resolved.
    pub closed spec fn spec_resolved(self) -> bool {
        self.resolved
    }

    /// Whether the author fits the network string bounds.
    pub open spec fn author_fits(author: Seq<char>) -> bool {
        utf16_len(author) <= MAX_NETWORK_STRING_LENGTH && encode_utf8(author).len() <= MAX_NETWORK_STRING_LENGTH * 3
    }

    /// A signed book; a title form over the title length, a generation out
    /// of `0..=3`, or an author over the network string bounds is refused,
    /// in that order.
    pub fn new(title: Filterable<String>, author: String, generation: i32, pages: Vec<Filterable<P>>, resolved: bool) -> (res: Result<Self, WireError>)
        ensures
            res is Ok <==> filterable_within(title, Self::TITLE_MAX_LENGTH as int) && 0 <= generation <= Self::MAX_GENERATION
                && Self::author_fits(author@),
            res matches Ok(b) ==> b.spec_title() == title && b.spec_author() == author && b.spec_generation() == generation
                && b.spec_pages() == pages@ && b.spec_resolved() == resolved,
            res matches Err(e) ==> e == (if !filterable_within(title, Self::TITLE_MAX_LENGTH as int) {
                WireError::StringTooLong
            } else if !(0 <= generation <= Self::MAX_GENERATION) {
                WireError::Invalid
            } else {
                WireError::StringTooLong
            }),
    {
        let title_too_long = string_too_long(title.raw.as_str(), Self::TITLE_MAX_LENGTH) || match &title.filtered {
            Some(f) => string_too_long(f.as_str(), Self::TITLE_MAX_LENGTH),
            None => false,
        };
        if title_too_long {
            return Err(WireError::StringTooLong);
        }
        if generation < 0 || generation > Self::MAX_GENERATION {
            return Err(WireError::Invalid);
        }
        if string_too_long(author.as_str(), MAX_NETWORK_STRING_LENGTH) || author.as_str().as_bytes().len() > MAX_NETWORK_STRING_LENGTH * 3 {
            return Err(WireError::StringTooLong);
        }
        Ok(WrittenBookContent { title, author, generation, pages, resolved })
    }

    /// An unsigned-looking empty book: empty title and author, first
    /// generation, no pages, resolved.
    pub fn empty() -> (res: Self)
        ensures
            res.spec_title().spec_raw()@ == Seq::<char>::empty(),
            res.spec_title().spec_filtered() is None,
            res.spec_author()@ == Seq::<char>::empty(),
            res.spec_generation() == 0,
            res.spec_pages() == Seq::<Filterable<P>>::empty(),
            res.spec_resolved(),
    {
        WrittenBookContent {
            title: Filterable::pass_through(String::new()),
            author: String::new(),
            generation: 0,
            pages: Vec::new(),
            resolved: true,
        }
    }

    /// The title.
    pub fn title(&self) -> (res: &Filterable<String>)
        ensures
            *res == self.spec_title(),
    {
        &self.title
    }

    /// The author.
    pub fn author(&self) -> (res: &str)
        ensures
            res@ == self.spec_author()@,
    {
        self.author.as_str()
    }

    /// The generation.
    pub fn generation(&self) -> (res: i32)
        ensures
            res == self.spec_generation(),
    {
        self.generation
    }

    /// The pages, in order.
    pub fn pages(&self) -> (res: &[Filterable<P>])
        ensures
            res@ == self.spec_pages(),
    {
        self.pages.as_slice()
    }

    /// Whether the pages have been resolved.
    pub fn resolved(&self) -> (res: bool)
        ensures
            res == self.spec_resolved(),
    {
        self.resolved
    }
}

/// The network form of a page given as characters.
pub open spec fn page_view_bytes(p: (Seq<char>, Option<Seq<char>>)) -> Seq<u8> {
    string_bytes(p.0) + match p.1 {
        Some(f) => seq![bool_byte(true)] + string_bytes(f),
        None => seq![bool_byte(false)],
    }
}

/// The network form of a book and quill whose pages are given as characters.
pub open spec fn writable_book_view_bytes(pages: Seq<(Seq<char>, Option<Seq<char>>)>) -> Seq<u8> {
    varint_bytes(pages.len() as i32) + concat_map(pages, |p: (Seq<char>, Option<Seq<char>>)| page_view_bytes(p))
}

/// Whether a page given as characters fits the network bounds of a book page.
pub open spec fn page_view_fits(p: (Seq<char>, Option<Seq<char>>)) -> bool {
    &&& string_fits(p.0, WritableBookContent::PAGE_EDIT_LENGTH as int)
    &&& (p.1 matches Some(f) ==> string_fits(f, WritableBookContent::PAGE_EDIT_LENGTH as int))
}

/// Whether a page given as characters is within the page length.
pub open spec fn page_view_within(p: (Seq<char>, Option<Seq<char>>)) -> bool {
    &&& utf16_len(p.0) <= WritableBookContent::PAGE_EDIT_LENGTH as int
    &&& (p.1 matches Some(f) ==> utf16_len(f) <= WritableBookContent::PAGE_EDIT_LENGTH as int)
}

/// A book and quill's network form and validity depend on its pages'
/// characters alone.
pub proof fn lemma_writable_book_view(v: WritableBookContent)
    ensures
        v.spec_bytes() == writable_book_view_bytes(v.page_chars()),
        v.encodable() <==> (v.page_chars().len() <= WritableBookContent::MAX_PAGES
            && forall|i: int| 0 <= i < v.page_chars().len() ==> #[trigger] page_view_fits(v.page_chars()[i])),
        WritableBookContent::pages_valid(v.spec_pages()) <==> (v.page_chars().len() <= WritableBookContent::MAX_PAGES
            && forall|i: int| 0 <= i < v.page_chars().len() ==> #[trigger] page_view_within(v.page_chars()[i])),
{
    let g = |p: Filterable<String>| filterable_chars(p);
    let h = |p: (Seq<char>, Option<Seq<char>>)| page_view_bytes(p);
    assert forall|x: Filterable<String>| #[trigger] page_bytes()(x) == h(g(x)) by {}
    lemma_concat_map_map_values(v.spec_pages(), g, page_bytes(), h);
    let pc = v.page_chars();
    let ps = v.spec_pages();
    let m = WritableBookContent::PAGE_EDIT_LENGTH as int;
    if v.encodable() {
        assert forall|i: int| 0 <= i < pc.len() implies #[trigger] page_view_fits(pc[i]) by {
            assert(filterable_fits(ps[i], m));
        }
    }
    if forall|i: int| 0 <= i < pc.len() ==> #[trigger] page_view_fits(pc[i]) {
        assert forall|i: int| 0 <= i < ps.len() implies #[trigger] filterable_fits(ps[i], m) by {
            assert(page_view_fits(pc[i]));
        }
    }
    if WritableBookContent::pages_valid(ps) {
        assert forall|i: int| 0 <= i < pc.len() implies #[trigger] page_view_within(pc[i]) by {
            assert(filterable_within(ps[i], m));
        }
    }
    if forall|i: int| 0 <= i < pc.len() ==> #[trigger] page_view_within(pc[i]) {
        assert forall|i: int| 0 <= i < ps.len() implies #[trigger] filterable_within(ps[i], m) by {
            assert(page_view_within(pc[i]));
        }
    }
}

} // verus!
