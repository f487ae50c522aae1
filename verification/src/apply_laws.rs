//! What the application of a file leaves behind: the replica's bytes after
//! the writes that it asks for.
use crate::history::{applied, Changes, Image};
use crate::restore::{apply_step, ApplyAction, ApplyEvent, ApplyPhase, ApplyRun};
use vstd::prelude::*;

verus! {

/// A file's bytes after `data` was written at `offset`. What the file had no
/// bytes for before reads as zero.
pub open spec fn overwritten(bytes: Seq<u8>, offset: int, data: Seq<u8>) -> Seq<u8> {
    let end = offset + data.len();
    Seq::new(
        (if bytes.len() < end {
            end
        } else {
            bytes.len() as int
        }) as nat,
        |i: int|
            if offset <= i < end {
                data[i - offset]
            } else if i < bytes.len() {
                bytes[i]
            } else {
                0
            },
    )
}

/// A file's bytes after it was cut or extended to `n`.
pub open spec fn resized(bytes: Seq<u8>, n: int) -> Seq<u8> {
    Seq::new(
        n as nat,
        |i: int|
            if i < bytes.len() {
                bytes[i]
            } else {
                0
            },
    )
}

/// The replica's bytes after an action of an application was carried out.
pub open spec fn carried_out(bytes: Seq<u8>, a: ApplyAction) -> Seq<u8> {
    match a {
        ApplyAction::WritePage(offset, data) => overwritten(bytes, offset as int, data@),
        ApplyAction::SetLen(n) => resized(bytes, n as int),
        _ => bytes,
    }
}

/// The replica's bytes after actions were carried out in order.
pub open spec fn all_carried_out(bytes: Seq<u8>, acts: Seq<ApplyAction>) -> Seq<u8>
    decreases acts.len(),
{
    if acts.len() == 0 {
        bytes
    } else {
        carried_out(all_carried_out(bytes, acts.drop_last()), acts.last())
    }
}

/// The bytes of page `p`.
pub open spec fn page_at(bytes: Seq<u8>, p: int, page_size: int) -> Seq<u8> {
    bytes.subrange((p - 1) * page_size, p * page_size)
}

/// Whether `kept` are the bytes that a replica keeps of a page: all of them,
/// but for the journal mode and the change counter on page 1.
pub open spec fn keeps(kept: Seq<u8>, page: Seq<u8>, p: int) -> bool {
    &&& kept.len() == page.len()
    &&& forall|j: int|
        0 <= j < page.len() ==> (#[trigger] kept[j]) == page[j] || (p == 1 && (j == 18 || j == 19
            || 24 <= j < 28))
    &&& p == 1 && page.len() >= 28 ==> kept[18] == 1 && kept[19] == 1
}

/// Whether the application `s` answers the page with the action `a`.
pub open spec fn answers_page(s: ApplyRun, page: (u32, Vec<u8>), a: ApplyAction) -> bool {
    exists|t: ApplyRun| #[trigger] apply_step(s, ApplyEvent::Page(Ok(Some(page))), t, a)
}

/// Whether the application `s` answers each page of `pages` with the action
/// at the same place.
pub open spec fn answers_pages(
    s: ApplyRun,
    pages: Seq<(u32, Vec<u8>)>,
    acts: Seq<ApplyAction>,
) -> bool {
    &&& pages.len() == acts.len()
    &&& forall|k: int|
        0 <= k < pages.len() ==> answers_page(s, pages[k], #[trigger] acts[k])
}

/// Whether `pages` are pages of a file for a database with this page size,
/// each at most once.
pub open spec fn file_pages(pages: Seq<(u32, Vec<u8>)>, page_size: int) -> bool {
    &&& forall|k: int|
        0 <= k < pages.len() ==> (#[trigger] pages[k]).0 >= 1 && pages[k].1@.len() == page_size
    &&& forall|k: int, l: int|
        0 <= k < l < pages.len() ==> (#[trigger] pages[k]).0 != (#[trigger] pages[l]).0
}

proof fn lemma_write_page(bytes: Seq<u8>, p: int, page_size: int, data: Seq<u8>, q: int)
    requires
        p >= 1,
        q >= 1,
        page_size > 0,
        data.len() == page_size,
    ensures
        ({
            let b = overwritten(bytes, (p - 1) * page_size, data);
            &&& b.len() >= bytes.len()
            &&& b.len() >= p * page_size
            &&& page_at(b, p, page_size) == data
            &&& q != p && q * page_size <= bytes.len() ==> page_at(b, q, page_size) == page_at(
                bytes,
                q,
                page_size,
            )
        }),
{
    let b = overwritten(bytes, (p - 1) * page_size, data);
    assert((p - 1) * page_size + page_size == p * page_size && (p - 1) * page_size >= 0)
        by (nonlinear_arith)
        requires
            p >= 1,
            page_size > 0,
    ;
    assert((q - 1) * page_size + page_size == q * page_size && (q - 1) * page_size >= 0)
        by (nonlinear_arith)
        requires
            q >= 1,
            page_size > 0,
    ;
    assert(page_at(b, p, page_size) =~= data);
    if q < p {
        assert(q * page_size <= (p - 1) * page_size) by (nonlinear_arith)
            requires
                q <= p - 1,
                page_size > 0,
        ;
    } else if q > p {
        assert(p * page_size <= (q - 1) * page_size) by (nonlinear_arith)
            requires
                p <= q - 1,
                page_size > 0,
        ;
    }
    if q != p && q * page_size <= bytes.len() {
        assert(page_at(b, q, page_size) =~= page_at(bytes, q, page_size));
    }
}

proof fn lemma_writes(
    s: ApplyRun,
    commit: u32,
    pages: Seq<(u32, Vec<u8>)>,
    acts: Seq<ApplyAction>,
    bytes: Seq<u8>,
    q: int,
)
    requires
        s.phase == ApplyPhase::Page(commit),
        s.page_size > 0,
        file_pages(pages, s.page_size as int),
        answers_pages(s, pages, acts),
        q >= 1,
    ensures
        ({
            let b = all_carried_out(bytes, acts);
            &&& b.len() >= bytes.len()
            &&& forall|k: int|
                0 <= k < pages.len() && (#[trigger] pages[k]).0 == q ==> b.len() >= q * s.page_size
                    && keeps(page_at(b, q, s.page_size as int), pages[k].1@, q)
            &&& q * s.page_size <= bytes.len() && (forall|k: int|
                0 <= k < pages.len() ==> (#[trigger] pages[k]).0 != q) ==> page_at(
                b,
                q,
                s.page_size as int,
            ) == page_at(bytes, q, s.page_size as int)
        }),
    decreases pages.len(),
{
    if pages.len() > 0 {
        let ps = s.page_size as int;
        let n = pages.len() - 1;
        let ps_t = pages.drop_last();
        let acts_t = acts.drop_last();
        assert forall|k: int| 0 <= k < ps_t.len() implies answers_page(
            s,
            ps_t[k],
            #[trigger] acts_t[k],
        ) by {
            assert(acts_t[k] == acts[k] && ps_t[k] == pages[k]);
        }
        lemma_writes(s, commit, ps_t, acts_t, bytes, q);
        let before = all_carried_out(bytes, acts_t);
        let b = all_carried_out(bytes, acts);
        let page = pages[n];
        assert(answers_page(s, page, acts[n]));
        let t = choose|t: ApplyRun| #[trigger]
            apply_step(s, ApplyEvent::Page(Ok(Some(page))), t, acts[n]);
        assert(apply_step(s, ApplyEvent::Page(Ok(Some(page))), t, acts[n]));
        let data = acts[n]->WritePage_1@;
        lemma_write_page(before, page.0 as int, ps, data, q);
        assert(b == overwritten(before, (page.0 - 1) * ps, data));
        assert forall|k: int| 0 <= k < pages.len() && (#[trigger] pages[k]).0 == q implies b.len()
            >= q * ps && keeps(page_at(b, q, ps), pages[k].1@, q) by {
            if k < n {
                assert(ps_t[k] == pages[k]);
                assert(pages[k].0 != pages[n].0);
            } else {
                assert(keeps(data, page.1@, q));
            }
        }
        if q * ps <= bytes.len() && (forall|k: int|
            0 <= k < pages.len() ==> (#[trigger] pages[k]).0 != q) {
            assert forall|k: int| 0 <= k < ps_t.len() implies (#[trigger] ps_t[k]).0 != q by {
                assert(ps_t[k] == pages[k]);
            }
            assert(pages[n].0 != q);
        }
    }
}

/// After the writes of an application and its cut, every page of the file
/// lies where a database has it, for the replica's own page size, with its
/// fixups on page 1; every other page that is left is as it was before; and
/// the replica is as long as the file says.
pub proof fn law_applied_pages_lie_in_place(
    s: ApplyRun,
    commit: u32,
    pages: Seq<(u32, Vec<u8>)>,
    acts: Seq<ApplyAction>,
    u: ApplyRun,
    cut: ApplyAction,
    bytes: Seq<u8>,
    q: int,
)
    requires
        s.phase == ApplyPhase::Page(commit),
        commit > 0,
        s.page_size > 0,
        file_pages(pages, s.page_size as int),
        answers_pages(s, pages, acts),
        apply_step(s, ApplyEvent::Page(Ok(None)), u, cut),
        1 <= q <= commit,
    ensures
        ({
            let ps = s.page_size as int;
            let b = carried_out(all_carried_out(bytes, acts), cut);
            &&& b.len() == commit * ps
            &&& forall|k: int|
                0 <= k < pages.len() && (#[trigger] pages[k]).0 == q ==> keeps(
                    page_at(b, q, ps),
                    pages[k].1@,
                    q,
                )
            &&& q * ps <= bytes.len() && (forall|k: int|
                0 <= k < pages.len() ==> (#[trigger] pages[k]).0 != q) ==> page_at(b, q, ps)
                == page_at(bytes, q, ps)
        }),
{
    let ps = s.page_size as int;
    lemma_writes(s, commit, pages, acts, bytes, q);
    let w = all_carried_out(bytes, acts);
    let b = carried_out(w, cut);
    assert(0 <= commit * ps <= 0xffff_ffff * 0xffff_ffff) by (nonlinear_arith)
        requires
            0 <= commit <= 0xffff_ffff,
            0 <= ps <= 0xffff_ffff,
    ;
    assert(0 <= (q - 1) * ps <= q * ps <= commit * ps) by (nonlinear_arith)
        requires
            1 <= q <= commit,
            ps > 0,
    ;
    if q * ps <= w.len() {
        assert(page_at(b, q, ps) =~= page_at(w, q, ps));
    }
}

/// A replica's bytes show an image if they are as long, and every page of the
/// image lies in its place.
pub open spec fn shows(bytes: Seq<u8>, page_size: int, i: Image) -> bool {
    &&& bytes.len() == i.size * page_size
    &&& forall|p: int| #[trigger]
        i.pages.contains_key(p) ==> 1 <= p <= i.size && keeps(
            page_at(bytes, p, page_size),
            i.pages[p],
            p,
        )
}

/// What the pages of a file change.
pub open spec fn changes_of(pages: Seq<(u32, Vec<u8>)>, commit: int) -> Changes {
    Changes {
        commit,
        pages: Map::new(
            |p: int| exists|k: int| 0 <= k < pages.len() && (#[trigger] pages[k]).0 == p,
            |p: int|
                pages[choose|k: int| 0 <= k < pages.len() && (#[trigger] pages[k]).0 == p].1@,
        ),
    }
}

/// A replica that shows an image shows, after the application of a file, the
/// image that the file makes of it.
pub proof fn law_application_shows_the_applied_image(
    s: ApplyRun,
    commit: u32,
    pages: Seq<(u32, Vec<u8>)>,
    acts: Seq<ApplyAction>,
    u: ApplyRun,
    cut: ApplyAction,
    bytes: Seq<u8>,
    i: Image,
)
    requires
        s.phase == ApplyPhase::Page(commit),
        commit > 0,
        s.page_size > 0,
        file_pages(pages, s.page_size as int),
        forall|k: int| 0 <= k < pages.len() ==> (#[trigger] pages[k]).0 <= commit,
        answers_pages(s, pages, acts),
        apply_step(s, ApplyEvent::Page(Ok(None)), u, cut),
        shows(bytes, s.page_size as int, i),
    ensures
        shows(
            carried_out(all_carried_out(bytes, acts), cut),
            s.page_size as int,
            applied(i, changes_of(pages, commit as int)),
        ),
{
    let ps = s.page_size as int;
    let b = carried_out(all_carried_out(bytes, acts), cut);
    let c = changes_of(pages, commit as int);
    let after = applied(i, c);
    law_applied_pages_lie_in_place(s, commit, pages, acts, u, cut, bytes, 1);
    assert forall|p: int| #[trigger] after.pages.contains_key(p) implies 1 <= p <= after.size
        && keeps(page_at(b, p, ps), after.pages[p], p) by {
        if c.pages.contains_key(p) {
            let k = choose|k: int| 0 <= k < pages.len() && (#[trigger] pages[k]).0 == p;
            assert(pages[k].0 == p && pages[k].0 >= 1 && pages[k].0 <= commit);
            law_applied_pages_lie_in_place(s, commit, pages, acts, u, cut, bytes, p);
            assert(c.pages[p] == pages[k].1@);
        } else {
            assert(i.pages.contains_key(p));
            assert(forall|k: int| 0 <= k < pages.len() ==> (#[trigger] pages[k]).0 != p);
            law_applied_pages_lie_in_place(s, commit, pages, acts, u, cut, bytes, p);
            assert(p * ps <= i.size * ps) by (nonlinear_arith)
                requires
                    p <= i.size,
                    ps > 0,
            ;
        }
    }
}

/// An application reads its file to the end: after every write it asks for
/// the next page, and only when there is none does it cut the replica, check
/// the file's end, and flush. A file that does not state a size leaves the
/// replica's length alone.
pub proof fn law_application_reads_every_page(
    s: ApplyRun,
    ev: ApplyEvent,
    t: ApplyRun,
    a: ApplyAction,
)
    requires
        apply_step(s, ev, t, a),
    ensures
        t.page_size == s.page_size,
        t.use_file_locks == s.use_file_locks,
        s.phase is Write && (ev matches ApplyEvent::Done(Ok(_))) ==> a is NextPage && t.phase
            == ApplyPhase::Page(s.phase->Write_0),
        s.phase is Page && (ev matches ApplyEvent::Page(Ok(Some(_)))) ==> a is WritePage
            && t.phase == ApplyPhase::Write(s.phase->Page_0),
        s.phase is Page && ev == ApplyEvent::Page(Ok(None)) && s.phase->Page_0 == 0 ==> a
            is EndDecode,
        s.phase is Page && ev == ApplyEvent::Page(Ok(None)) && s.phase->Page_0 > 0 ==> a is SetLen
            && t.phase is SetLen,
        s.phase is SetLen && (ev matches ApplyEvent::Done(Ok(_))) ==> a is EndDecode && t.phase
            is End,
        s.phase is End && (ev matches ApplyEvent::Done(Ok(_))) ==> a is Flush && t.phase is Flush,
        s.phase is Flush && (ev matches ApplyEvent::Done(Ok(_))) ==> a == ApplyAction::Finish(
            Ok(()),
        ),
{
}

/// A file for another page size is refused with the range that it covers,
/// before the replica is locked or written; one for the same page size is
/// applied, under the lock if locks are used, with the size that it states.
pub proof fn law_page_sizes_must_agree(s: ApplyRun, ev: ApplyEvent, t: ApplyRun, a: ApplyAction)
    requires
        s.phase is Header,
        ev matches ApplyEvent::Header(Ok(_)),
        apply_step(s, ev, t, a),
    ensures
        ({
            let h = ev->Header_0->Ok_0;
            &&& h.page_size != s.page_size ==> a == ApplyAction::Finish(
                Err(crate::error::Error::Diverged { local: h.min_txid, remote: h.max_txid }),
            )
            &&& h.page_size == s.page_size && s.use_file_locks ==> a is Lock && t.phase
                == ApplyPhase::Lock(h.commit)
            &&& h.page_size == s.page_size && !s.use_file_locks ==> a is NextPage && t.phase
                == ApplyPhase::Page(h.commit)
        }),
{
}

} // verus!
