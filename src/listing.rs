use vstd::prelude::*;
use vstd::multiset::Multiset;
use vstd::string::StringSliceAdditionalSpecFns;
use crate::bytes::{dec, push_bytes, push_decimal, push_str};

verus! {

broadcast use vstd::seq_lib::group_to_multiset_ensures, vstd::seq_lib::to_multiset_insert, vstd::multiset::group_multiset_axioms;

/// One child of a listed directory.
#[derive(Debug)]
pub struct DirEntry {
    pub name: Vec<u8>,
    pub is_dir: bool,
    /// Length in bytes; `None` for directories.
    pub size: Option<u64>,
}

pub struct EntryView {
    pub name: Seq<u8>,
    pub is_dir: bool,
    pub size: Option<u64>,
}

impl View for DirEntry {
    type V = EntryView;

    open spec fn view(&self) -> EntryView {
        EntryView { name: self.name@, is_dir: self.is_dir, size: self.size }
    }
}

pub open spec fn entries_view(v: Seq<DirEntry>) -> Seq<EntryView> {
    v.map_values(|e: DirEntry| e@)
}

// ---------------------------------------------------------------- order

/// Byte-wise lexicographic order.
pub open spec fn lex_le(a: Seq<u8>, b: Seq<u8>) -> bool
    decreases a.len(),
{
    if a.len() == 0 {
        true
    } else if b.len() == 0 {
        false
    } else if a[0] < b[0] {
        true
    } else if a[0] > b[0] {
        false
    } else {
        lex_le(a.drop_first(), b.drop_first())
    }
}

/// Directories before files; by name within each group.
pub open spec fn entry_le(a: EntryView, b: EntryView) -> bool {
    if a.is_dir != b.is_dir {
        a.is_dir
    } else {
        lex_le(a.name, b.name)
    }
}

pub open spec fn is_sorted(s: Seq<EntryView>) -> bool {
    forall|i: int, j: int| 0 <= i < j < s.len() ==> entry_le(#[trigger] s[i], #[trigger] s[j])
}

pub proof fn lemma_lex_total(a: Seq<u8>, b: Seq<u8>)
    ensures
        lex_le(a, b) || lex_le(b, a),
    decreases a.len(),
{
    if a.len() > 0 && b.len() > 0 && a[0] == b[0] {
        lemma_lex_total(a.drop_first(), b.drop_first());
    }
}

pub proof fn lemma_lex_trans(a: Seq<u8>, b: Seq<u8>, c: Seq<u8>)
    requires
        lex_le(a, b),
        lex_le(b, c),
    ensures
        lex_le(a, c),
    decreases a.len(),
{
    if a.len() > 0 && b.len() > 0 && c.len() > 0 && a[0] == b[0] && b[0] == c[0] {
        lemma_lex_trans(a.drop_first(), b.drop_first(), c.drop_first());
    }
}

pub proof fn lemma_entry_total(a: EntryView, b: EntryView)
    ensures
        entry_le(a, b) || entry_le(b, a),
{
    lemma_lex_total(a.name, b.name);
}

pub proof fn lemma_entry_trans(a: EntryView, b: EntryView, c: EntryView)
    requires
        entry_le(a, b),
        entry_le(b, c),
    ensures
        entry_le(a, c),
{
    if a.is_dir == b.is_dir && b.is_dir == c.is_dir {
        lemma_lex_trans(a.name, b.name, c.name);
    }
}

/// Whether `a` comes no later than `b` in byte-wise order.
pub fn name_le(a: &[u8], b: &[u8]) -> (r: bool)
    ensures
        r == lex_le(a@, b@),
{
    let mut i: usize = 0;
    proof {
        assert(a@.subrange(0, a@.len() as int) =~= a@);
        assert(b@.subrange(0, b@.len() as int) =~= b@);
    }
    while i < a.len() && i < b.len()
        invariant
            i <= a@.len(),
            i <= b@.len(),
            lex_le(a@, b@) == lex_le(a@.subrange(i as int, a@.len() as int), b@.subrange(i as int, b@.len() as int)),
        decreases a@.len() - i,
    {
        let ghost sa = a@.subrange(i as int, a@.len() as int);
        let ghost sb = b@.subrange(i as int, b@.len() as int);
        if a[i] < b[i] {
            return true;
        }
        if a[i] > b[i] {
            return false;
        }
        proof {
            assert(sa.drop_first() =~= a@.subrange(i + 1, a@.len() as int));
            assert(sb.drop_first() =~= b@.subrange(i + 1, b@.len() as int));
        }
        i += 1;
    }
    i >= a.len()
}

/// Whether entry `a` may stand before entry `b`.
pub fn entry_before(a: &DirEntry, b: &DirEntry) -> (r: bool)
    ensures
        r == entry_le(a@, b@),
{
    if a.is_dir != b.is_dir {
        a.is_dir
    } else {
        name_le(a.name.as_slice(), b.name.as_slice())
    }
}

/// Puts directories before files, each group in byte-wise order of name.
pub fn sort_entries(entries: Vec<DirEntry>) -> (r: Vec<DirEntry>)
    ensures
        is_sorted(entries_view(r@)),
        entries_view(r@).to_multiset() == entries_view(entries@).to_multiset(),
{
    let mut rest = entries;
    let mut out: Vec<DirEntry> = Vec::new();
    proof {
        assert(entries_view(out@) =~= Seq::<EntryView>::empty());
        assert(entries_view(out@).to_multiset() =~= Multiset::<EntryView>::empty());
        assert(entries_view(rest@) =~= entries_view(entries@));
        assert(Multiset::<EntryView>::empty().add(entries_view(rest@).to_multiset()) =~= entries_view(
            entries@,
        ).to_multiset());
    }
    while rest.len() > 0
        invariant
            is_sorted(entries_view(out@)),
            entries_view(out@).to_multiset().add(entries_view(rest@).to_multiset())
                == entries_view(entries@).to_multiset(),
        decreases rest@.len(),
    {
        let ghost r0 = entries_view(rest@);
        let e = rest.pop().unwrap();
        proof {
            assert(r0 =~= entries_view(rest@).push(e@));
        }
        let mut k: usize = out.len();
        while k > 0 && !entry_before(&out[k - 1], &e)
            invariant
                k <= out@.len(),
                forall|j: int| k <= j < out@.len() ==> !entry_le(#[trigger] out@[j]@, e@),
            decreases k,
        {
            k -= 1;
        }
        let ghost o0 = entries_view(out@);
        out.insert(k, e);
        proof {
            let o1 = entries_view(out@);
            assert(o1 =~= o0.insert(k as int, e@));
            assert forall|i: int, j: int| 0 <= i < j < o1.len() implies entry_le(
                #[trigger] o1[i],
                #[trigger] o1[j],
            ) by {
                if j == k {
                    if i < k - 1 {
                        assert(entry_le(o0[i], o0[k - 1]));
                        lemma_entry_trans(o0[i], o0[k - 1], e@);
                    }
                } else if i == k {
                    assert(!entry_le(o0[j - 1], e@));
                    lemma_entry_total(o0[j - 1], e@);
                } else if i < k && j > k {
                    assert(entry_le(o0[i], o0[j - 1]));
                } else if j < k {
                    assert(entry_le(o0[i], o0[j]));
                } else {
                    assert(entry_le(o0[i - 1], o0[j - 1]));
                }
            }
            assert(o1.to_multiset() == o0.to_multiset().insert(e@));
            assert(r0.to_multiset() == entries_view(rest@).to_multiset().insert(e@));
            assert(o1.to_multiset().add(entries_view(rest@).to_multiset()) =~= o0.to_multiset().add(
                r0.to_multiset(),
            ));
        }
    }
    proof {
        assert(entries_view(rest@) =~= Seq::<EntryView>::empty());
        assert(entries_view(rest@).to_multiset() =~= Multiset::<EntryView>::empty());
        assert(entries_view(out@).to_multiset().add(Multiset::<EntryView>::empty()) =~= entries_view(
            out@,
        ).to_multiset());
    }
    out
}

// ---------------------------------------------------------------- encoding

/// Bytes that stand in a link unescaped: ASCII letters and digits and `-_.~`.
pub open spec fn unreserved(b: u8) -> bool {
    (48 <= b && b <= 57) || (65 <= b && b <= 90) || (97 <= b && b <= 122) || b == 45 || b == 95
        || b == 46 || b == 126
}

/// Upper-case hexadecimal digit of `d < 16`.
pub open spec fn hex_digit(d: u8) -> u8 {
    if d < 10 {
        (48 + d) as u8
    } else {
        (55 + d) as u8
    }
}

pub open spec fn encode_byte(b: u8) -> Seq<u8> {
    if unreserved(b) {
        seq![b]
    } else {
        seq![37u8, hex_digit(b / 16), hex_digit(b % 16)]
    }
}

/// Percent-encoding of `s`, byte by byte.
pub open spec fn encode(s: Seq<u8>) -> Seq<u8>
    decreases s.len(),
{
    if s.len() == 0 {
        seq![]
    } else {
        encode(s.drop_last()) + encode_byte(s.last())
    }
}

/// Percent-encodes a name for a link: ASCII letters and digits and `-_.~`
/// pass; every other byte becomes `%XX` in upper-case hexadecimal.
pub fn url_encode(s: &[u8]) -> (r: Vec<u8>)
    ensures
        r@ == encode(s@),
{
    let mut out: Vec<u8> = Vec::new();
    let mut i: usize = 0;
    while i < s.len()
        invariant
            i <= s@.len(),
            out@ == encode(s@.subrange(0, i as int)),
        decreases s@.len() - i,
    {
        let b = s[i];
        let ghost o0 = out@;
        if (48 <= b && b <= 57) || (65 <= b && b <= 90) || (97 <= b && b <= 122) || b == 45 || b
            == 95 || b == 46 || b == 126 {
            out.push(b);
        } else {
            let hi: u8 = b / 16;
            let lo: u8 = b % 16;
            out.push(37);
            out.push(if hi < 10 { 48 + hi } else { 55 + hi });
            out.push(if lo < 10 { 48 + lo } else { 55 + lo });
        }
        proof {
            assert(s@.subrange(0, i + 1).drop_last() =~= s@.subrange(0, i as int));
            assert(out@ =~= o0 + encode_byte(b));
        }
        i += 1;
    }
    proof {
        assert(s@.subrange(0, s@.len() as int) =~= s@);
    }
    out
}

// ---------------------------------------------------------------- links

pub open spec fn rstrip_slash(s: Seq<u8>) -> Seq<u8>
    decreases s.len(),
{
    if s.len() > 0 && s.last() == 47 {
        rstrip_slash(s.drop_last())
    } else {
        s
    }
}

/// `s` up to its last `/` (that `/` excluded), or empty where it has none.
pub open spec fn before_last_slash(s: Seq<u8>) -> Seq<u8>
    decreases s.len(),
{
    if s.len() == 0 {
        s
    } else if s.last() == 47 {
        s.drop_last()
    } else {
        before_last_slash(s.drop_last())
    }
}

/// The URL path one level up; `/` where nothing is left.
pub open spec fn parent_spec(url: Seq<u8>) -> Seq<u8> {
    let p = rstrip_slash(before_last_slash(rstrip_slash(url)));
    if p.len() == 0 {
        seq![47u8]
    } else {
        p
    }
}

fn rstrip_len(s: &[u8], n: usize) -> (r: usize)
    requires
        n <= s@.len(),
    ensures
        r <= n,
        s@.subrange(0, r as int) == rstrip_slash(s@.subrange(0, n as int)),
{
    let mut k: usize = n;
    while k > 0 && s[k - 1] == 47
        invariant
            k <= n <= s@.len(),
            rstrip_slash(s@.subrange(0, k as int)) == rstrip_slash(s@.subrange(0, n as int)),
        decreases k,
    {
        proof {
            assert(s@.subrange(0, k as int).drop_last() =~= s@.subrange(0, k - 1));
        }
        k -= 1;
    }
    k
}

/// The URL path one level up from `url`: trailing `/` and the last
/// component are dropped; `/` where nothing is left.
pub fn parent_path(url: &[u8]) -> (r: Vec<u8>)
    ensures
        r@ == parent_spec(url@),
{
    proof {
        assert(url@.subrange(0, url@.len() as int) =~= url@);
    }
    let a = rstrip_len(url, url.len());
    let mut k: usize = a;
    while k > 0 && url[k - 1] != 47
        invariant
            k <= a <= url@.len(),
            before_last_slash(url@.subrange(0, k as int)) == before_last_slash(url@.subrange(0, a as int)),
        decreases k,
    {
        proof {
            assert(url@.subrange(0, k as int).drop_last() =~= url@.subrange(0, k - 1));
        }
        k -= 1;
    }
    let b: usize = if k > 0 {
        proof {
            assert(url@.subrange(0, k as int).drop_last() =~= url@.subrange(0, k - 1));
        }
        k - 1
    } else {
        proof {
            assert(url@.subrange(0, 0) =~= Seq::<u8>::empty());
        }
        0
    };
    let c = rstrip_len(url, b);
    let mut out: Vec<u8> = Vec::new();
    if c == 0 {
        out.push(47);
        proof {
            assert(out@ =~= seq![47u8]);
        }
    } else {
        out = crate::bytes::copy_range(url, 0, c);
    }
    out
}

/// The link to an entry: the URL path, a `/` unless it ends in one, and the
/// encoded name.
pub open spec fn join_spec(url: Seq<u8>, enc: Seq<u8>) -> Seq<u8> {
    if url.len() > 0 && url.last() == 47 {
        url + enc
    } else {
        url + seq![47u8] + enc
    }
}

/// What the size column shows: `N B` for a file of `N > 0` bytes, else `-`.
pub open spec fn size_spec(size: Option<u64>) -> Seq<u8> {
    match size {
        Some(n) => if n > 0 {
            dec(n as nat) + " B".spec_bytes()
        } else {
            "-".spec_bytes()
        },
        None => "-".spec_bytes(),
    }
}

// ---------------------------------------------------------------- html

pub open spec fn page_top(url: Seq<u8>) -> Seq<u8> {
    "<!DOCTYPE html><html><head><meta charset=\"utf-8\"><title>Index of ".spec_bytes() + url
        + "</title><style>".spec_bytes() + STYLE.spec_bytes() + "</style></head><body><h1>Index of ".spec_bytes()
        + url
        + "</h1><table><thead><tr><th>Name</th><th>Size</th><th>Modified</th></tr></thead><tbody>".spec_bytes()
}

pub const STYLE: &'static str = "body{font-family:sans-serif;margin:2rem}table{width:100%;border-collapse:collapse}th,td{padding:.5rem 1rem;text-align:left;border-bottom:1px solid #eee}.size{color:#888}a{text-decoration:none;color:#0070f3}";

pub const PAGE_END: &'static str = "</tbody></table></body></html>";

pub open spec fn parent_row(url: Seq<u8>) -> Seq<u8> {
    if url.len() == 0 || url == seq![47u8] {
        seq![]
    } else {
        "<tr><td><a href=\"".spec_bytes() + parent_spec(url)
            + "\" class=\"dir\">../</a></td><td>-</td><td>-</td></tr>".spec_bytes()
    }
}

pub open spec fn entry_row(url: Seq<u8>, e: EntryView) -> Seq<u8> {
    "<tr><td><a href=\"".spec_bytes() + join_spec(url, encode(e.name)) + "\" class=\"".spec_bytes()
        + (if e.is_dir {
        "dir".spec_bytes()
    } else {
        "file".spec_bytes()
    }) + "\">".spec_bytes() + e.name + "</a></td><td class=\"size\">".spec_bytes() + size_spec(
        e.size,
    ) + "</td><td>-</td></tr>".spec_bytes()
}

pub open spec fn entry_rows(url: Seq<u8>, es: Seq<EntryView>) -> Seq<u8>
    decreases es.len(),
{
    if es.len() == 0 {
        seq![]
    } else {
        entry_rows(url, es.drop_last()) + entry_row(url, es.last())
    }
}

/// The HTML page that lists `es`, in the order given, under the URL path `url`.
pub open spec fn listing_spec(url: Seq<u8>, es: Seq<EntryView>) -> Seq<u8> {
    page_top(url) + parent_row(url) + entry_rows(url, es) + PAGE_END.spec_bytes()
}

pub open spec fn row_link(url: Seq<u8>, e: EntryView) -> Seq<u8> {
    "<tr><td><a href=\"".spec_bytes() + join_spec(url, encode(e.name)) + "\" class=\"".spec_bytes()
        + (if e.is_dir {
        "dir".spec_bytes()
    } else {
        "file".spec_bytes()
    }) + "\">".spec_bytes()
}

pub open spec fn row_rest(e: EntryView) -> Seq<u8> {
    e.name + "</a></td><td class=\"size\">".spec_bytes() + size_spec(e.size)
        + "</td><td>-</td></tr>".spec_bytes()
}

proof fn lemma_entry_row_split(url: Seq<u8>, e: EntryView)
    ensures
        entry_row(url, e) == row_link(url, e) + row_rest(e),
{
    assert(entry_row(url, e) =~= row_link(url, e) + row_rest(e));
}

fn push_link(out: &mut Vec<u8>, url: &[u8], e: &DirEntry)
    ensures
        final(out)@ == old(out)@ + row_link(url@, e@),
{
    let ghost o0 = out@;
    push_str(out, "<tr><td><a href=\"");
    push_bytes(out, url);
    if !(url.len() > 0 && url[url.len() - 1] == 47) {
        out.push(47);
    }
    let enc = url_encode(e.name.as_slice());
    push_bytes(out, enc.as_slice());
    let ghost o1 = out@;
    proof {
        assert(o1 =~= o0 + ("<tr><td><a href=\"".spec_bytes() + join_spec(url@, encode(e.name@))));
    }
    push_str(out, "\" class=\"");
    if e.is_dir {
        push_str(out, "dir");
    } else {
        push_str(out, "file");
    }
    push_str(out, "\">");
    proof {
        assert(out@ =~= o0 + row_link(url@, e@));
    }
}

fn push_row(out: &mut Vec<u8>, url: &[u8], e: &DirEntry)
    ensures
        final(out)@ == old(out)@ + entry_row(url@, e@),
{
    let ghost o0 = out@;
    push_link(out, url, e);
    let ghost o1 = out@;
    push_bytes(out, e.name.as_slice());
    push_str(out, "</a></td><td class=\"size\">");
    let ghost o2 = out@;
    match e.size {
        Some(n) => {
            if n > 0 {
                push_decimal(out, n);
                push_str(out, " B");
            } else {
                push_str(out, "-");
            }
        },
        None => {
            push_str(out, "-");
        },
    }
    proof {
        assert(out@ =~= o2 + size_spec(e.size));
    }
    push_str(out, "</td><td>-</td></tr>");
    proof {
        assert(out@ =~= o1 + row_rest(e@));
        lemma_entry_row_split(url@, e@);
        assert(out@ =~= o0 + entry_row(url@, e@));
    }
}

/// The HTML page that lists `entries`, in the order given, under the URL
/// path `url`: a `..` row to the parent unless `url` is `/`, then one row per
/// entry with its encoded link, its name, and its size.
pub fn render_listing(url: &[u8], entries: &Vec<DirEntry>) -> (r: Vec<u8>)
    ensures
        r@ == listing_spec(url@, entries_view(entries@)),
{
    let mut out: Vec<u8> = Vec::new();
    push_str(&mut out, "<!DOCTYPE html><html><head><meta charset=\"utf-8\"><title>Index of ");
    push_bytes(&mut out, url);
    push_str(&mut out, "</title><style>");
    push_str(&mut out, STYLE);
    push_str(&mut out, "</style></head><body><h1>Index of ");
    push_bytes(&mut out, url);
    push_str(
        &mut out,
        "</h1><table><thead><tr><th>Name</th><th>Size</th><th>Modified</th></tr></thead><tbody>",
    );
    proof {
        assert(out@ =~= page_top(url@));
    }
    let ghost top = out@;
    let is_root = url.len() == 0 || (url.len() == 1 && url[0] == 47);
    proof {
        if url@.len() == 1 && url@[0] == 47 {
            assert(url@ =~= seq![47u8]);
        }
    }
    if !is_root {
        push_str(&mut out, "<tr><td><a href=\"");
        let p = parent_path(url);
        push_bytes(&mut out, p.as_slice());
        push_str(&mut out, "\" class=\"dir\">../</a></td><td>-</td><td>-</td></tr>");
    }
    proof {
        assert(out@ =~= top + parent_row(url@));
    }
    let ghost head = out@;
    let ghost ev = entries_view(entries@);
    let mut i: usize = 0;
    proof {
        assert(ev.subrange(0, 0) =~= Seq::<EntryView>::empty());
        assert(out@ =~= head + entry_rows(url@, ev.subrange(0, 0)));
    }
    while i < entries.len()
        invariant
            i <= entries@.len(),
            ev == entries_view(entries@),
            out@ == head + entry_rows(url@, ev.subrange(0, i as int)),
        decreases entries@.len() - i,
    {
        push_row(&mut out, url, &entries[i]);
        proof {
            assert(ev.subrange(0, i + 1).drop_last() =~= ev.subrange(0, i as int));
            assert(out@ =~= head + entry_rows(url@, ev.subrange(0, i + 1)));
        }
        i += 1;
    }
    push_str(&mut out, PAGE_END);
    proof {
        assert(ev.subrange(0, entries@.len() as int) =~= ev);
        assert(out@ =~= listing_spec(url@, ev));
    }
    out
}

} // verus!
