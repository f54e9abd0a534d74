//! What a narinfo says when it is written out, and that reading it back gives what
//! was written.

use vstd::prelude::*;
use vstd::string::*;
use vstd::utf8::encode_utf8;

use crate::narinfo::{
    blank_narinfo, lemma_lines_of_text, parsed, with_field, with_line, with_text, without_cr,
    NarInfoErrorView, NarInfoView,
};
use crate::number::{decimal, is_digit, law_decimal_reads_back};
use crate::text::{
    find, is_white, joined, lemma_find_from, lemma_find_from_is, lemma_run_before_is,
    lemma_word_len_is, occurs_at, split_once, word_len, words,
};

verus! {

/// One line: the key, a colon and a space, and the value.
pub open spec fn field_line(key: Seq<char>, value: Seq<char>) -> Seq<char> {
    key + ": "@ + value + "\n"@
}

/// One line for each signature.
pub open spec fn sig_lines(sigs: Seq<Seq<char>>) -> Seq<char>
    decreases sigs.len(),
{
    if sigs.len() == 0 {
        seq![]
    } else {
        field_line("Sig"@, sigs[0]) + sig_lines(sigs.skip(1))
    }
}

/// The text of a narinfo: one line for each field, and for each signature.
pub open spec fn written(info: NarInfoView) -> Seq<char> {
    field_line("StorePath"@, info.store_path) + (field_line("URL"@, info.url) + (field_line(
        "Compression"@,
        info.compression,
    ) + (field_line("FileHash"@, info.file_hash) + (field_line("FileSize"@, decimal(info.file_size))
        + (field_line("NarHash"@, info.nar_hash) + (field_line("NarSize"@, decimal(info.nar_size))
        + (field_line("References"@, joined(info.references, " "@)) + (field_line(
        "Deriver"@,
        info.deriver,
    ) + (sig_lines(info.sig) + field_line("CA"@, info.ca))))))))))
}

/// The text can stand as the value of a line: it has no line feed in it, and no
/// carriage return at its end.
pub open spec fn fits_line(value: Seq<char>) -> bool {
    &&& forall|i: int| 0 <= i < value.len() ==> #[trigger] value[i] != '\n'
    &&& value.len() > 0 ==> value.last() != '\r'
}

/// The text is one word.
pub open spec fn is_word(s: Seq<char>) -> bool {
    s.len() > 0 && forall|i: int| 0 <= i < s.len() ==> !is_white(#[trigger] s[i])
}

/// The narinfo can be written out: it has a store path, its sizes fit, its texts
/// fit into lines, and its references are words.
pub open spec fn can_be_written(info: NarInfoView) -> bool {
    &&& info.store_path.len() > 0
    &&& fits_line(info.store_path)
    &&& fits_line(info.url)
    &&& fits_line(info.compression)
    &&& fits_line(info.file_hash)
    &&& fits_line(info.nar_hash)
    &&& fits_line(info.deriver)
    &&& fits_line(info.ca)
    &&& info.file_size <= u64::MAX
    &&& info.nar_size <= u64::MAX
    &&& forall|i: int| 0 <= i < info.references.len() ==> is_word(#[trigger] info.references[i])
    &&& forall|i: int| 0 <= i < info.sig.len() ==> fits_line(#[trigger] info.sig[i])
}

/// A key of a line: nothing in it ends the key or the line.
spec fn is_key(key: Seq<char>) -> bool {
    key.len() > 0 && forall|i: int|
        0 <= i < key.len() ==> #[trigger] key[i] != ':' && key[i] != '\n'
}

proof fn lemma_split_key(key: Seq<char>, value: Seq<char>)
    requires
        is_key(key),
    ensures
        split_once(key + ": "@ + value, ": "@) == Some((key, value)),
{
    reveal_strlit(": ");
    let s = key + ": "@ + value;
    let n = key.len();
    assert(s.subrange(n as int, n as int + 2) =~= ": "@);
    assert forall|j: int| 0 <= j < n implies !occurs_at(s, ": "@, j) by {
        if occurs_at(s, ": "@, j) {
            assert(s.subrange(j, j + 2)[0] == s[j]);
            assert(s[j] == key[j]);
        }
    }
    lemma_find_from_is(s, ": "@, 0, n);
    assert(s.take(n as int) =~= key);
    assert(s.skip(n as int + 2) =~= value);
}

proof fn lemma_read_line(info: NarInfoView, key: Seq<char>, value: Seq<char>, rest: Seq<char>)
    requires
        is_key(key),
        fits_line(value),
    ensures
        with_text(info, field_line(key, value) + rest) == match with_field(info, key, value) {
            Ok(next) => with_text(next, rest),
            Err(e) => Err(e),
        },
{
    reveal_strlit(": ");
    reveal_strlit("\n");
    let line = key + ": "@ + value;
    let s = field_line(key, value) + rest;
    let n = line.len();
    assert(s =~= line + seq!['\n'] + rest);
    assert forall|i: int| 0 <= i < n implies s[i] != '\n' by {
        if i < key.len() {
            assert(s[i] == key[i]);
        } else if i >= key.len() + 2 {
            assert(s[i] == value[i - key.len() - 2]);
        }
    }
    lemma_run_before_is(s, '\n', n);
    assert(s.take(n as int) =~= line);
    assert(s.skip(n as int + 1) =~= rest);
    assert(without_cr(line) == line) by {
        if value.len() > 0 {
            assert(line.last() == value.last());
        } else {
            assert(line.last() == ' ');
        }
    }
    lemma_split_key(key, value);
}

proof fn lemma_keys()
    ensures
        is_key("StorePath"@),
        is_key("URL"@),
        is_key("Compression"@),
        is_key("FileHash"@),
        is_key("FileSize"@),
        is_key("NarHash"@),
        is_key("NarSize"@),
        is_key("References"@),
        is_key("Deriver"@),
        is_key("Sig"@),
        is_key("CA"@),
        "URL"@ != "StorePath"@,
        "Compression"@ != "StorePath"@,
        "Compression"@ != "URL"@,
        "FileHash"@ != "StorePath"@,
        "FileHash"@ != "URL"@,
        "FileHash"@ != "Compression"@,
        "FileSize"@ != "StorePath"@,
        "FileSize"@ != "URL"@,
        "FileSize"@ != "Compression"@,
        "FileSize"@ != "FileHash"@,
        "NarHash"@ != "StorePath"@,
        "NarHash"@ != "URL"@,
        "NarHash"@ != "Compression"@,
        "NarHash"@ != "FileHash"@,
        "NarHash"@ != "FileSize"@,
        "NarSize"@ != "StorePath"@,
        "NarSize"@ != "URL"@,
        "NarSize"@ != "Compression"@,
        "NarSize"@ != "FileHash"@,
        "NarSize"@ != "FileSize"@,
        "NarSize"@ != "NarHash"@,
        "References"@ != "StorePath"@,
        "References"@ != "URL"@,
        "References"@ != "Compression"@,
        "References"@ != "FileHash"@,
        "References"@ != "FileSize"@,
        "References"@ != "NarHash"@,
        "References"@ != "NarSize"@,
        "Deriver"@ != "StorePath"@,
        "Deriver"@ != "URL"@,
        "Deriver"@ != "Compression"@,
        "Deriver"@ != "FileHash"@,
        "Deriver"@ != "FileSize"@,
        "Deriver"@ != "NarHash"@,
        "Deriver"@ != "NarSize"@,
        "Deriver"@ != "References"@,
        "Sig"@ != "StorePath"@,
        "Sig"@ != "URL"@,
        "Sig"@ != "Compression"@,
        "Sig"@ != "FileHash"@,
        "Sig"@ != "FileSize"@,
        "Sig"@ != "NarHash"@,
        "Sig"@ != "NarSize"@,
        "Sig"@ != "References"@,
        "Sig"@ != "Deriver"@,
        "CA"@ != "StorePath"@,
        "CA"@ != "URL"@,
        "CA"@ != "Compression"@,
        "CA"@ != "FileHash"@,
        "CA"@ != "FileSize"@,
        "CA"@ != "NarHash"@,
        "CA"@ != "NarSize"@,
        "CA"@ != "References"@,
        "CA"@ != "Deriver"@,
        "CA"@ != "Sig"@,
{
    reveal_strlit("StorePath");
    reveal_strlit("URL");
    reveal_strlit("Compression");
    reveal_strlit("FileHash");
    reveal_strlit("FileSize");
    reveal_strlit("NarHash");
    reveal_strlit("NarSize");
    reveal_strlit("References");
    reveal_strlit("Deriver");
    reveal_strlit("Sig");
    reveal_strlit("CA");
    assert("StorePath"@.len() == 9 && "URL"@.len() == 3 && "Compression"@.len() == 11);
    assert("FileHash"@.len() == 8 && "FileSize"@.len() == 8 && "NarHash"@.len() == 7);
    assert("NarSize"@.len() == 7 && "References"@.len() == 10 && "Deriver"@.len() == 7);
    assert("Sig"@.len() == 3 && "CA"@.len() == 2);
    assert("FileHash"@[4] != "FileSize"@[4]);
    assert("NarHash"@[3] != "NarSize"@[3]);
    assert("NarHash"@[0] != "Deriver"@[0]);
    assert("NarSize"@[0] != "Deriver"@[0]);
    assert("URL"@[0] != "Sig"@[0]);
}

/// Each line of a narinfo sets the field that its key names and leaves all the
/// others as they were; a signature is added to those that were read before.
pub proof fn law_a_line_sets_its_own_field(info: NarInfoView, value: Seq<char>)
    ensures
        with_line(info, "StorePath"@ + ": "@ + value) == Ok::<NarInfoView, NarInfoErrorView>(
            NarInfoView { store_path: value, ..info },
        ),
        with_line(info, "URL"@ + ": "@ + value) == Ok::<NarInfoView, NarInfoErrorView>(
            NarInfoView { url: value, ..info },
        ),
        with_line(info, "Compression"@ + ": "@ + value) == Ok::<NarInfoView, NarInfoErrorView>(
            NarInfoView { compression: value, ..info },
        ),
        with_line(info, "FileHash"@ + ": "@ + value) == Ok::<NarInfoView, NarInfoErrorView>(
            NarInfoView { file_hash: value, ..info },
        ),
        with_line(info, "NarHash"@ + ": "@ + value) == Ok::<NarInfoView, NarInfoErrorView>(
            NarInfoView { nar_hash: value, ..info },
        ),
        with_line(info, "Deriver"@ + ": "@ + value) == Ok::<NarInfoView, NarInfoErrorView>(
            NarInfoView { deriver: value, ..info },
        ),
        with_line(info, "Sig"@ + ": "@ + value) == Ok::<NarInfoView, NarInfoErrorView>(
            NarInfoView { sig: info.sig.push(value), ..info },
        ),
        with_line(info, "CA"@ + ": "@ + value) == Ok::<NarInfoView, NarInfoErrorView>(
            NarInfoView { ca: value, ..info },
        ),
{
    lemma_keys();
    lemma_split_key("StorePath"@, value);
    lemma_split_key("URL"@, value);
    lemma_split_key("Compression"@, value);
    lemma_split_key("FileHash"@, value);
    lemma_split_key("NarHash"@, value);
    lemma_split_key("Deriver"@, value);
    lemma_split_key("Sig"@, value);
    lemma_split_key("CA"@, value);
}

/// Sizes and references are read from what is written for them: a size from its
/// decimal form, references from the words of the line.
pub proof fn law_sizes_and_references_are_read(
    info: NarInfoView,
    size: nat,
    references: Seq<Seq<char>>,
)
    requires
        size <= u64::MAX,
        references.len() > 0,
        forall|i: int| 0 <= i < references.len() ==> is_word(#[trigger] references[i]),
    ensures
        with_line(info, "FileSize"@ + ": "@ + decimal(size)) == Ok::<NarInfoView, NarInfoErrorView>(
            NarInfoView { file_size: size, ..info },
        ),
        with_line(info, "NarSize"@ + ": "@ + decimal(size)) == Ok::<NarInfoView, NarInfoErrorView>(
            NarInfoView { nar_size: size, ..info },
        ),
        with_line(info, "References"@ + ": "@ + joined(references, " "@)) == Ok::<
            NarInfoView,
            NarInfoErrorView,
        >(NarInfoView { references, ..info }),
{
    lemma_keys();
    lemma_split_key("FileSize"@, decimal(size));
    lemma_split_key("NarSize"@, decimal(size));
    lemma_split_key("References"@, joined(references, " "@));
    law_decimal_reads_back(size, u64::MAX as nat);
    law_words_read_back(references);
}

/// A line whose key names no field says nothing, and one without a colon and a
/// space is refused, whatever was read before.
pub proof fn law_other_lines(info: NarInfoView, key: Seq<char>, value: Seq<char>, line: Seq<char>)
    requires
        key.len() > 0,
        forall|i: int| 0 <= i < key.len() ==> #[trigger] key[i] != ':' && key[i] != '\n',
        !seq![
            "StorePath"@,
            "URL"@,
            "Compression"@,
            "FileHash"@,
            "FileSize"@,
            "NarHash"@,
            "NarSize"@,
            "References"@,
            "Deriver"@,
            "Sig"@,
            "CA"@,
        ].contains(key),
        line.len() > 0,
        forall|i: int| 0 <= i < line.len() ==> #[trigger] line[i] != ':',
    ensures
        with_line(info, key + ": "@ + value) == Ok::<NarInfoView, NarInfoErrorView>(info),
        with_line(info, line) == Err::<NarInfoView, NarInfoErrorView>(
            NarInfoErrorView::MalformedLine(line),
        ),
        with_line(info, seq![]) == Ok::<NarInfoView, NarInfoErrorView>(info),
{
    let keys = seq![
        "StorePath"@,
        "URL"@,
        "Compression"@,
        "FileHash"@,
        "FileSize"@,
        "NarHash"@,
        "NarSize"@,
        "References"@,
        "Deriver"@,
        "Sig"@,
        "CA"@,
    ];
    assert forall|i: int| 0 <= i < keys.len() implies key != #[trigger] keys[i] by {
        assert(keys.contains(keys[i]));
    }
    assert(key != keys[0] && key != keys[1] && key != keys[2] && key != keys[3] && key != keys[4]);
    assert(key != keys[5] && key != keys[6] && key != keys[7] && key != keys[8] && key != keys[9]);
    assert(key != keys[10]);
    lemma_split_key(key, value);
    reveal_strlit(": ");
    lemma_find_from(line, ": "@, 0);
    if find(line, ": "@) is Some {
        let i = find(line, ": "@)->0 as int;
        assert(line.subrange(i, i + 2)[0] == line[i]);
    }
}

proof fn lemma_words_append(a: Seq<char>, w: Seq<char>)
    requires
        is_word(w),
    ensures
        words(a + " "@ + w) == words(a).push(w),
    decreases a.len(),
{
    reveal_strlit(" ");
    let s = a + " "@ + w;
    assert(is_white(' '));
    if a.len() == 0 {
        assert(s[0] == ' ');
        assert(s.skip(1) =~= w);
        lemma_one_word(w);
        assert(words(s) =~= words(a).push(w));
    } else if is_white(a[0]) {
        assert(s[0] == a[0]);
        assert(s.skip(1) =~= a.skip(1) + " "@ + w);
        lemma_words_append(a.skip(1), w);
    } else {
        lemma_word_len(a);
        let n = word_len(a);
        assert(s[0] == a[0]);
        assert forall|i: int| 0 <= i < n implies !is_white(#[trigger] s[i]) by {
            assert(s[i] == a[i]);
        }
        if n < a.len() {
            assert(s[n as int] == a[n as int]);
        } else {
            assert(s[n as int] == ' ');
        }
        lemma_word_len_is(s, n);
        assert(n >= 1);
        assert(s.take(n as int) =~= a.take(n as int));
        assert(s.skip(n as int) =~= a.skip(n as int) + " "@ + w);
        lemma_words_append(a.skip(n as int), w);
        assert(words(s) =~= words(a).push(w));
    }
}

proof fn lemma_word_len(s: Seq<char>)
    ensures
        word_len(s) <= s.len(),
        forall|i: int| 0 <= i < word_len(s) ==> !is_white(#[trigger] s[i]),
        word_len(s) < s.len() ==> is_white(s[word_len(s) as int]),
    decreases s.len(),
{
    if s.len() > 0 && !is_white(s[0]) {
        lemma_word_len(s.skip(1));
        assert forall|i: int| 0 <= i < word_len(s) implies !is_white(#[trigger] s[i]) by {
            if i > 0 {
                assert(s.skip(1)[i - 1] == s[i]);
            }
        }
    }
}

proof fn lemma_one_word(w: Seq<char>)
    requires
        is_word(w),
    ensures
        words(w) == seq![w],
{
    lemma_word_len_is(w, w.len());
    assert(!is_white(w[0]));
    assert(w.take(w.len() as int) =~= w);
    assert(w.skip(w.len() as int) =~= seq![]);
    assert(words(w.skip(w.len() as int)) =~= seq![]);
    assert(words(w) =~= seq![w]);
}

/// Words with a space between each two are read back as they were.
pub proof fn law_words_read_back(list: Seq<Seq<char>>)
    requires
        forall|i: int| 0 <= i < list.len() ==> is_word(#[trigger] list[i]),
    ensures
        words(joined(list, " "@)) == list,
        list.len() > 0 ==> joined(list, " "@).len() > 0,
    decreases list.len(),
{
    if list.len() == 0 {
        assert(words(joined(list, " "@)) =~= list);
    } else if list.len() == 1 {
        lemma_one_word(list[0]);
        assert(words(joined(list, " "@)) =~= list);
    } else {
        let front = list.drop_last();
        assert forall|i: int| 0 <= i < front.len() implies is_word(#[trigger] front[i]) by {
            assert(front[i] == list[i]);
        }
        law_words_read_back(front);
        assert(is_word(list[list.len() - 1]));
        lemma_words_append(joined(front, " "@), list.last());
        assert(front.push(list.last()) =~= list);
    }
}

proof fn lemma_joined_fits(list: Seq<Seq<char>>)
    requires
        forall|i: int| 0 <= i < list.len() ==> is_word(#[trigger] list[i]),
    ensures
        fits_line(joined(list, " "@)),
    decreases list.len(),
{
    reveal_strlit(" ");
    let s = joined(list, " "@);
    assert(is_white('\n') && is_white('\r'));
    if list.len() > 0 {
        let last = list[list.len() - 1];
        assert(is_word(last));
        assert(!is_white(last[last.len() - 1]));
        if list.len() > 1 {
            let front = list.drop_last();
            assert forall|i: int| 0 <= i < front.len() implies is_word(#[trigger] front[i]) by {
                assert(front[i] == list[i]);
            }
            lemma_joined_fits(front);
            let before = joined(front, " "@);
            assert forall|i: int| 0 <= i < s.len() implies #[trigger] s[i] != '\n' by {
                if i < before.len() {
                    assert(s[i] == before[i]);
                } else if i > before.len() {
                    assert(s[i] == last[i - before.len() - 1]);
                }
            }
            assert(s.last() == last.last());
        }
    }
}

proof fn lemma_decimal_fits(n: nat)
    ensures
        fits_line(decimal(n)),
        forall|i: int| 0 <= i < decimal(n).len() ==> is_digit(#[trigger] decimal(n)[i]),
        decimal(n).len() > 0,
    decreases n,
{
    if n >= 10 {
        lemma_decimal_fits(n / 10);
    }
    assert forall|i: int| 0 <= i < decimal(n).len() implies is_digit(#[trigger] decimal(n)[i]) by {
        if n >= 10 && i < decimal(n).len() - 1 {
            assert(decimal(n)[i] == decimal(n / 10)[i]);
        }
    }
    assert(is_digit(decimal(n)[decimal(n).len() - 1]));
}

proof fn lemma_read_sigs(info: NarInfoView, sigs: Seq<Seq<char>>, rest: Seq<char>)
    requires
        forall|i: int| 0 <= i < sigs.len() ==> fits_line(#[trigger] sigs[i]),
    ensures
        with_text(info, sig_lines(sigs) + rest) == with_text(
            NarInfoView { sig: info.sig + sigs, ..info },
            rest,
        ),
    decreases sigs.len(),
{
    if sigs.len() == 0 {
        assert(sig_lines(sigs) + rest =~= rest);
        assert(info.sig + sigs =~= info.sig);
    } else {
        let more = sigs.skip(1);
        assert forall|i: int| 0 <= i < more.len() implies fits_line(#[trigger] more[i]) by {
            assert(more[i] == sigs[i + 1]);
        }
        assert(fits_line(sigs[0]));
        lemma_keys();
        assert(sig_lines(sigs) + rest =~= field_line("Sig"@, sigs[0]) + (sig_lines(more) + rest));
        lemma_read_line(info, "Sig"@, sigs[0], sig_lines(more) + rest);
        let next = NarInfoView { sig: info.sig.push(sigs[0]), ..info };
        lemma_read_sigs(next, more, rest);
        assert(next.sig + more =~= info.sig + sigs);
    }
}

/// A narinfo that is written out, one line for each field, is read back with
/// exactly the values that were written.
pub proof fn law_narinfo_reads_back(info: NarInfoView)
    requires
        can_be_written(info),
    ensures
        parsed(encode_utf8(written(info))) == Ok::<NarInfoView, NarInfoErrorView>(info),
{
    lemma_keys();
    lemma_decimal_fits(info.file_size);
    lemma_decimal_fits(info.nar_size);
    lemma_joined_fits(info.references);
    law_words_read_back(info.references);
    law_decimal_reads_back(info.file_size, u64::MAX as nat);
    law_decimal_reads_back(info.nar_size, u64::MAX as nat);
    lemma_lines_of_text(blank_narinfo(), written(info));
    let refs = joined(info.references, " "@);
    let t10 = field_line("CA"@, info.ca);
    let t9 = sig_lines(info.sig) + t10;
    let t8 = field_line("Deriver"@, info.deriver) + t9;
    let t7 = field_line("References"@, refs) + t8;
    let t6 = field_line("NarSize"@, decimal(info.nar_size)) + t7;
    let t5 = field_line("NarHash"@, info.nar_hash) + t6;
    let t4 = field_line("FileSize"@, decimal(info.file_size)) + t5;
    let t3 = field_line("FileHash"@, info.file_hash) + t4;
    let t2 = field_line("Compression"@, info.compression) + t3;
    let t1 = field_line("URL"@, info.url) + t2;
    let i0 = blank_narinfo();
    let i1 = NarInfoView { store_path: info.store_path, ..i0 };
    let i2 = NarInfoView { url: info.url, ..i1 };
    let i3 = NarInfoView { compression: info.compression, ..i2 };
    let i4 = NarInfoView { file_hash: info.file_hash, ..i3 };
    let i5 = NarInfoView { file_size: info.file_size, ..i4 };
    let i6 = NarInfoView { nar_hash: info.nar_hash, ..i5 };
    let i7 = NarInfoView { nar_size: info.nar_size, ..i6 };
    let i8 = NarInfoView { references: info.references, ..i7 };
    let i9 = NarInfoView { deriver: info.deriver, ..i8 };
    let i10 = NarInfoView { sig: i9.sig + info.sig, ..i9 };
    lemma_read_line(i0, "StorePath"@, info.store_path, t1);
    lemma_read_line(i1, "URL"@, info.url, t2);
    lemma_read_line(i2, "Compression"@, info.compression, t3);
    lemma_read_line(i3, "FileHash"@, info.file_hash, t4);
    lemma_read_line(i4, "FileSize"@, decimal(info.file_size), t5);
    lemma_read_line(i5, "NarHash"@, info.nar_hash, t6);
    lemma_read_line(i6, "NarSize"@, decimal(info.nar_size), t7);
    lemma_read_line(i7, "References"@, refs, t8);
    if info.references.len() == 0 {
        assert(refs.len() == 0);
        assert(i7.references =~= info.references);
        assert(i8 == i7);
    }
    lemma_read_line(i8, "Deriver"@, info.deriver, t9);
    lemma_read_sigs(i9, info.sig, t10);
    assert(t10 + seq![] =~= t10);
    lemma_read_line(i10, "CA"@, info.ca, seq![]);
    assert(i9.sig + info.sig =~= info.sig);
    assert(NarInfoView { ca: info.ca, ..i10 } =~= info);
}

/// A text that is read as a narinfo gives a store path.
pub proof fn law_a_narinfo_has_a_store_path(b: Seq<u8>)
    ensures
        parsed(b) matches Ok(info) ==> info.store_path.len() > 0,
{
}

/// Whichever way a line ends, it says the same; a line that says nothing may stand
/// anywhere.
pub proof fn law_line_ends_do_not_matter(info: NarInfoView, line: Seq<char>, rest: Seq<char>)
    requires
        fits_line(line),
    ensures
        with_text(info, line + "\r\n"@ + rest) == with_text(info, line + "\n"@ + rest),
        with_text(info, "\n"@ + rest) == with_text(info, rest),
        with_text(info, line) == with_text(info, line + "\n"@),
{
    reveal_strlit("\r\n");
    reveal_strlit("\n");
    let dos = line + "\r\n"@ + rest;
    let unix = line + "\n"@ + rest;
    let n = line.len();
    assert forall|i: int| 0 <= i < n implies dos[i] != '\n' && unix[i] != '\n' by {
        assert(dos[i] == line[i] && unix[i] == line[i]);
    }
    assert forall|i: int| 0 <= i < n + 1 implies dos[i] != '\n' by {
        if i < n {
            assert(dos[i] == line[i]);
        }
    }
    lemma_run_before_is(dos, '\n', n + 1);
    lemma_run_before_is(unix, '\n', n);
    assert(dos.take(n as int + 1) =~= line.push('\r'));
    assert(line.push('\r').drop_last() =~= line);
    assert(unix.take(n as int) =~= line);
    assert(dos.skip(n as int + 2) =~= rest);
    assert(unix.skip(n as int + 1) =~= rest);
    assert(without_cr(line) == line);
    let blank = "\n"@ + rest;
    lemma_run_before_is(blank, '\n', 0);
    assert(blank.take(0) =~= seq![]);
    assert(blank.skip(1) =~= rest);
    let ended = line + "\n"@;
    assert(ended + seq![] =~= ended);
    assert forall|i: int| 0 <= i < n implies ended[i] != '\n' && line[i] != '\n' by {
        assert(ended[i] == line[i]);
    }
    lemma_run_before_is(ended, '\n', n);
    lemma_run_before_is(line, '\n', n);
    assert(ended.take(n as int) =~= line);
    assert(ended.skip(n as int + 1) =~= seq![]);
    if let Ok(next) = with_line(info, line) {
        assert(with_text(next, seq![]) == Ok::<NarInfoView, NarInfoErrorView>(next));
    }
}

/// The first line that cannot be read decides: what stands behind it does not
/// matter, nor what was read before it.
pub proof fn law_the_first_bad_line_decides(
    info: NarInfoView,
    line: Seq<char>,
    rest: Seq<char>,
    other: Seq<char>,
)
    requires
        fits_line(line),
        with_line(info, line) is Err,
    ensures
        with_text(info, line + "\n"@ + rest) == with_line(info, line),
        with_text(info, line + "\n"@ + rest) == with_text(info, line + "\n"@ + other),
{
    reveal_strlit("\n");
    let n = line.len();
    let s = line + "\n"@ + rest;
    let t = line + "\n"@ + other;
    assert forall|i: int| 0 <= i < n implies s[i] != '\n' && t[i] != '\n' by {
        assert(s[i] == line[i] && t[i] == line[i]);
    }
    lemma_run_before_is(s, '\n', n);
    lemma_run_before_is(t, '\n', n);
    assert(s.take(n as int) =~= line && t.take(n as int) =~= line);
    assert(without_cr(line) == line);
}

} // verus!
