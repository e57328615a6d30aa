//! Reconciliation: bringing the installed boot entries in line with the
//! available kernels. Installing comes before removing, so a failure can
//! never leave the machine without a bootable entry; a removal is
//! best-effort and the newest kernel ends up as the default.

use vstd::prelude::*;
use vstd::string::*;

use crate::config::Config;
use crate::error::Error;
use crate::fsmodel::BootEnv;
use crate::kernel::{
    kernel_same, kviews, spec_config_written, spec_entry_content, spec_esp_after_install,
    spec_ucode_name, Kernel, KernelView, MakeConfigOutcome,
};
use crate::plan::Action;

verus! {

/// How many of the newest available kernels the update keeps: the
/// configured cap, bounded by how many there are.
pub open spec fn spec_keep(keep: Option<usize>, n: int) -> int {
    let k = match keep {
        None => n,
        Some(k) => k as int,
    };
    if k < n {
        k
    } else {
        n
    }
}

/// Whether some target is the same kernel (see [`kernel_same`]).
pub open spec fn in_targets(ts: Seq<KernelView>, k: KernelView) -> bool {
    exists|i: int| 0 <= i < ts.len() && kernel_same(#[trigger] ts[i], k)
}

/// The ESP contents after installing every kernel of `ks`, in order.
pub open spec fn esp_after_installs(
    src: Map<Seq<char>, Seq<u8>>,
    esp0: Map<Seq<char>, Seq<u8>>,
    ks: Seq<KernelView>,
) -> Map<Seq<char>, Seq<u8>>
    decreases ks.len(),
{
    if ks.len() == 0 {
        esp0
    } else {
        spec_esp_after_install(src, esp_after_installs(src, esp0, ks.drop_last()), ks.last())
    }
}

/// The entries directory after installing every kernel of `ks` in order
/// and writing each one's entry right after its images (so each entry
/// reflects the ESP as it stood at that moment).
pub open spec fn entries_after_installs(
    src: Map<Seq<char>, Seq<u8>>,
    esp0: Map<Seq<char>, Seq<u8>>,
    entries0: Map<Seq<char>, Seq<char>>,
    ks: Seq<KernelView>,
) -> Map<Seq<char>, Seq<char>>
    decreases ks.len(),
{
    if ks.len() == 0 {
        entries0
    } else {
        entries_after_installs(src, esp0, entries0, ks.drop_last()).insert(
            ks.last().entry,
            spec_entry_content(
                ks.last(),
                src.contains_key(spec_ucode_name()),
                esp_after_installs(src, esp0, ks).contains_key(ks.last().initrd),
            ),
        )
    }
}

/// The ESP contents after removing, best-effort, the images of every
/// installed kernel that is not a target.
pub open spec fn esp_after_removals(
    esp: Map<Seq<char>, Seq<u8>>,
    installed: Seq<KernelView>,
    ts: Seq<KernelView>,
) -> Map<Seq<char>, Seq<u8>>
    decreases installed.len(),
{
    if installed.len() == 0 {
        esp
    } else {
        let e = esp_after_removals(esp, installed.drop_last(), ts);
        if in_targets(ts, installed.last()) {
            e
        } else {
            e.remove(installed.last().vmlinuz).remove(installed.last().initrd)
        }
    }
}

/// The entries directory after those removals.
pub open spec fn entries_after_removals(
    entries: Map<Seq<char>, Seq<char>>,
    installed: Seq<KernelView>,
    ts: Seq<KernelView>,
) -> Map<Seq<char>, Seq<char>>
    decreases installed.len(),
{
    if installed.len() == 0 {
        entries
    } else {
        let e = entries_after_removals(entries, installed.drop_last(), ts);
        if in_targets(ts, installed.last()) {
            e
        } else {
            e.remove(installed.last().entry)
        }
    }
}

/// The default pointer after those removals: cleared as soon as the
/// kernel it names is removed, untouched otherwise.
pub open spec fn default_after_removals(
    d: Option<Seq<char>>,
    installed: Seq<KernelView>,
    ts: Seq<KernelView>,
) -> Option<Seq<char>>
    decreases installed.len(),
{
    if installed.len() == 0 {
        d
    } else {
        let d1 = default_after_removals(d, installed.drop_last(), ts);
        if in_targets(ts, installed.last()) {
            d1
        } else if d1 == Some(installed.last().entry) {
            None
        } else {
            d1
        }
    }
}

/// The disk actions of the update's install pass: each kernel's copy
/// actions against the ESP as it stood, then the write of its entry.
pub open spec fn update_install_actions(
    src: Map<Seq<char>, Seq<u8>>,
    esp0: Map<Seq<char>, Seq<u8>>,
    ks: Seq<KernelView>,
) -> Seq<crate::plan::ActionView>
    decreases ks.len(),
{
    if ks.len() == 0 {
        Seq::<crate::plan::ActionView>::empty()
    } else {
        update_install_actions(src, esp0, ks.drop_last()) + crate::kernel::spec_install_actions(
            src,
            esp_after_installs(src, esp0, ks.drop_last()),
            ks.last(),
        ) + seq![
            crate::plan::ActionView::WriteEntry {
                name: ks.last().entry,
                content: spec_entry_content(
                    ks.last(),
                    src.contains_key(spec_ucode_name()),
                    esp_after_installs(src, esp0, ks).contains_key(ks.last().initrd),
                ),
            },
        ]
    }
}

/// The disk actions of the update's removal pass: for each obsolete
/// kernel, the deletions against the state the earlier removals left.
pub open spec fn update_removal_actions(
    esp: Map<Seq<char>, Seq<u8>>,
    entries: Map<Seq<char>, Seq<char>>,
    d: Option<Seq<char>>,
    installed: Seq<KernelView>,
    ts: Seq<KernelView>,
) -> Seq<crate::plan::ActionView>
    decreases installed.len(),
{
    if installed.len() == 0 {
        Seq::<crate::plan::ActionView>::empty()
    } else {
        let prev = update_removal_actions(esp, entries, d, installed.drop_last(), ts);
        if in_targets(ts, installed.last()) {
            prev
        } else {
            prev + crate::kernel::spec_remove_actions(
                esp_after_removals(esp, installed.drop_last(), ts),
                entries_after_removals(entries, installed.drop_last(), ts),
                default_after_removals(d, installed.drop_last(), ts),
                installed.last(),
            )
        }
    }
}

/// Removals do nothing when everything scanned as installed is a target.
pub proof fn lemma_removals_noop(
    esp: Map<Seq<char>, Seq<u8>>,
    entries: Map<Seq<char>, Seq<char>>,
    d: Option<Seq<char>>,
    installed: Seq<KernelView>,
    ts: Seq<KernelView>,
)
    requires
        forall|j: int| 0 <= j < installed.len() ==> in_targets(ts, #[trigger] installed[j]),
    ensures
        esp_after_removals(esp, installed, ts) == esp,
        entries_after_removals(entries, installed, ts) == entries,
        default_after_removals(d, installed, ts) == d,
    decreases installed.len(),
{
    if installed.len() > 0 {
        assert(in_targets(ts, installed[installed.len() - 1]));
        assert(forall|j: int|
            0 <= j < installed.drop_last().len() ==> installed.drop_last()[j] == installed[j]);
        lemma_removals_noop(esp, entries, d, installed.drop_last(), ts);
    }
}

/// Installing a kernel whose images the ESP already holds, byte for byte,
/// changes nothing.
pub proof fn lemma_install_noop(
    src: Map<Seq<char>, Seq<u8>>,
    e: Map<Seq<char>, Seq<u8>>,
    k: KernelView,
)
    requires
        e.contains_key(k.vmlinuz) && e[k.vmlinuz] == src[k.vmlinuz],
        src.contains_key(k.initrd) ==> e.contains_key(k.initrd) && e[k.initrd] == src[k.initrd],
        src.contains_key(spec_ucode_name()) ==> e.contains_key(spec_ucode_name()) && e[
            spec_ucode_name()
        ] == src[spec_ucode_name()],
        !src.contains_key(spec_ucode_name()) ==> !e.contains_key(spec_ucode_name()),
    ensures
        spec_esp_after_install(src, e, k) == e,
{
    assert(spec_esp_after_install(src, e, k) =~= e);
}

/// The ESP state already reflecting every target absorbs a repeated
/// install pass without change.
pub proof fn lemma_installs_noop(
    src: Map<Seq<char>, Seq<u8>>,
    e: Map<Seq<char>, Seq<u8>>,
    ts: Seq<KernelView>,
)
    requires
        forall|i: int|
            0 <= i < ts.len() ==> e.contains_key((#[trigger] ts[i]).vmlinuz) && e[ts[i].vmlinuz]
                == src[ts[i].vmlinuz],
        forall|i: int|
            0 <= i < ts.len() && src.contains_key((#[trigger] ts[i]).initrd) ==> e.contains_key(
                ts[i].initrd,
            ) && e[ts[i].initrd] == src[ts[i].initrd],
        ts.len() > 0 && src.contains_key(spec_ucode_name()) ==> e.contains_key(spec_ucode_name())
            && e[spec_ucode_name()] == src[spec_ucode_name()],
        ts.len() > 0 && !src.contains_key(spec_ucode_name()) ==> !e.contains_key(
            spec_ucode_name(),
        ),
    ensures
        esp_after_installs(src, e, ts) == e,
    decreases ts.len(),
{
    if ts.len() > 0 {
        assert(forall|j: int| 0 <= j < ts.drop_last().len() ==> ts.drop_last()[j] == ts[j]);
        lemma_installs_noop(src, e, ts.drop_last());
        assert(ts[ts.len() - 1] == ts.last());
        lemma_install_noop(src, e, ts.last());
    }
}

/// An install pass never touches a key that is no target image, no
/// source-backed initrd and not the microcode image.
pub proof fn lemma_installs_frame(
    src: Map<Seq<char>, Seq<u8>>,
    e: Map<Seq<char>, Seq<u8>>,
    ts: Seq<KernelView>,
    x: Seq<char>,
)
    requires
        forall|i: int| 0 <= i < ts.len() ==> (#[trigger] ts[i]).vmlinuz != x,
        !src.contains_key(x),
        x != spec_ucode_name(),
    ensures
        esp_after_installs(src, e, ts).contains_key(x) == e.contains_key(x),
        e.contains_key(x) ==> esp_after_installs(src, e, ts)[x] == e[x],
    decreases ts.len(),
{
    if ts.len() > 0 {
        assert(forall|j: int| 0 <= j < ts.drop_last().len() ==> ts.drop_last()[j] == ts[j]);
        lemma_installs_frame(src, e, ts.drop_last(), x);
        assert(ts[ts.len() - 1] == ts.last());
    }
}

/// A removal pass never touches a key that no removed kernel's images
/// carry.
pub proof fn lemma_removals_frame(
    e: Map<Seq<char>, Seq<u8>>,
    installed: Seq<KernelView>,
    ts: Seq<KernelView>,
    x: Seq<char>,
)
    requires
        forall|j: int|
            0 <= j < installed.len() && !in_targets(ts, #[trigger] installed[j]) ==> installed[
                j
            ].vmlinuz != x && installed[j].initrd != x,
    ensures
        esp_after_removals(e, installed, ts).contains_key(x) == e.contains_key(x),
        e.contains_key(x) ==> esp_after_removals(e, installed, ts)[x] == e[x],
    decreases installed.len(),
{
    if installed.len() > 0 {
        assert(forall|j: int|
            0 <= j < installed.drop_last().len() ==> installed.drop_last()[j] == installed[j]);
        lemma_removals_frame(e, installed.drop_last(), ts, x);
        assert(installed[installed.len() - 1] == installed.last());
    }
}

/// An entry-removal pass never touches an entry that no removed kernel
/// owns.
pub proof fn lemma_entries_removals_frame(
    entries: Map<Seq<char>, Seq<char>>,
    installed: Seq<KernelView>,
    ts: Seq<KernelView>,
    x: Seq<char>,
)
    requires
        forall|j: int|
            0 <= j < installed.len() && !in_targets(ts, #[trigger] installed[j]) ==> installed[
                j
            ].entry != x,
    ensures
        entries_after_removals(entries, installed, ts).contains_key(x) == entries.contains_key(x),
        entries.contains_key(x) ==> entries_after_removals(entries, installed, ts)[x]
            == entries[x],
    decreases installed.len(),
{
    if installed.len() > 0 {
        assert(forall|j: int|
            0 <= j < installed.drop_last().len() ==> installed.drop_last()[j] == installed[j]);
        lemma_entries_removals_frame(entries, installed.drop_last(), ts, x);
        assert(installed[installed.len() - 1] == installed.last());
    }
}

/// After an install pass over targets whose kernel images exist in the
/// source and whose artifact names never collide with the microcode
/// image, the ESP reflects every target: it holds each kernel image and
/// each source-backed initrd byte-identically, and the microcode image
/// exactly when its source exists.
pub proof fn lemma_installs_reflect(
    src: Map<Seq<char>, Seq<u8>>,
    esp0: Map<Seq<char>, Seq<u8>>,
    ts: Seq<KernelView>,
)
    requires
        forall|i: int| 0 <= i < ts.len() ==> src.contains_key((#[trigger] ts[i]).vmlinuz),
        forall|i: int|
            0 <= i < ts.len() ==> (#[trigger] ts[i]).vmlinuz != spec_ucode_name() && ts[i].initrd
                != spec_ucode_name(),
    ensures
        ({
            let e = esp_after_installs(src, esp0, ts);
            &&& forall|i: int|
                0 <= i < ts.len() ==> e.contains_key((#[trigger] ts[i]).vmlinuz) && e[(
                #[trigger] ts[i]).vmlinuz] == src[ts[i].vmlinuz]
            &&& forall|i: int|
                0 <= i < ts.len() && src.contains_key((#[trigger] ts[i]).initrd)
                    ==> e.contains_key(ts[i].initrd) && e[ts[i].initrd] == src[ts[i].initrd]
            &&& ts.len() > 0 && src.contains_key(spec_ucode_name()) ==> e.contains_key(
                spec_ucode_name(),
            ) && e[spec_ucode_name()] == src[spec_ucode_name()]
            &&& ts.len() > 0 && !src.contains_key(spec_ucode_name()) ==> !e.contains_key(
                spec_ucode_name(),
            )
        }),
    decreases ts.len(),
{
    if ts.len() > 0 {
        assert(forall|j: int| 0 <= j < ts.drop_last().len() ==> ts.drop_last()[j] == ts[j]);
        lemma_installs_reflect(src, esp0, ts.drop_last());
        let e0 = esp_after_installs(src, esp0, ts.drop_last());
        let e = esp_after_installs(src, esp0, ts);
        let k = ts.last();
        assert(e == spec_esp_after_install(src, e0, k));
        // every key the step writes gets the source's bytes for that key,
        // so earlier targets stay reflected
        assert forall|i: int| 0 <= i < ts.len() implies e.contains_key((#[trigger] ts[i]).vmlinuz)
            && e[ts[i].vmlinuz] == src[ts[i].vmlinuz] by {
            if i < ts.len() - 1 {
                assert(ts.drop_last()[i] == ts[i]);
            }
        }
        assert forall|i: int|
            0 <= i < ts.len() && src.contains_key((#[trigger] ts[i]).initrd) implies e.contains_key(
            ts[i].initrd,
        ) && e[ts[i].initrd] == src[ts[i].initrd] by {
            if i < ts.len() - 1 {
                assert(ts.drop_last()[i] == ts[i]);
            }
        }
    }
}

/// Removing kernels whose artifact names are disjoint from the targets'
/// keeps the ESP reflecting the targets.
pub proof fn lemma_removals_preserve_reflect(
    src: Map<Seq<char>, Seq<u8>>,
    e: Map<Seq<char>, Seq<u8>>,
    installed: Seq<KernelView>,
    ts: Seq<KernelView>,
)
    requires
        forall|j: int, i: int|
            0 <= j < installed.len() && 0 <= i < ts.len() && !in_targets(
                ts,
                #[trigger] installed[j],
            ) ==> installed[j].vmlinuz != (#[trigger] ts[i]).vmlinuz && installed[j].vmlinuz
                != ts[i].initrd && installed[j].initrd != ts[i].vmlinuz && installed[j].initrd
                != ts[i].initrd,
        forall|j: int|
            0 <= j < installed.len() && !in_targets(ts, #[trigger] installed[j]) ==> installed[
                j
            ].vmlinuz != spec_ucode_name() && installed[j].initrd != spec_ucode_name(),
        forall|i: int|
            0 <= i < ts.len() ==> e.contains_key((#[trigger] ts[i]).vmlinuz) && e[ts[i].vmlinuz]
                == src[ts[i].vmlinuz],
        forall|i: int|
            0 <= i < ts.len() && src.contains_key((#[trigger] ts[i]).initrd) ==> e.contains_key(
                ts[i].initrd,
            ) && e[ts[i].initrd] == src[ts[i].initrd],
        src.contains_key(spec_ucode_name()) ==> e.contains_key(spec_ucode_name()) && e[
            spec_ucode_name()
        ] == src[spec_ucode_name()],
        !src.contains_key(spec_ucode_name()) ==> !e.contains_key(spec_ucode_name()),
    ensures
        ({
            let e1 = esp_after_removals(e, installed, ts);
            &&& forall|i: int|
                0 <= i < ts.len() ==> e1.contains_key((#[trigger] ts[i]).vmlinuz) && e1[(
                #[trigger] ts[i]).vmlinuz] == src[ts[i].vmlinuz]
            &&& forall|i: int|
                0 <= i < ts.len() && src.contains_key((#[trigger] ts[i]).initrd)
                    ==> e1.contains_key(ts[i].initrd) && e1[ts[i].initrd] == src[ts[i].initrd]
            &&& src.contains_key(spec_ucode_name()) ==> e1.contains_key(spec_ucode_name()) && e1[
                spec_ucode_name()
            ] == src[spec_ucode_name()]
            &&& !src.contains_key(spec_ucode_name()) ==> !e1.contains_key(spec_ucode_name())
        }),
{
    let e1 = esp_after_removals(e, installed, ts);
    assert forall|i: int| 0 <= i < ts.len() implies e1.contains_key((#[trigger] ts[i]).vmlinuz)
        && e1[ts[i].vmlinuz] == src[ts[i].vmlinuz] by {
        lemma_removals_frame(e, installed, ts, ts[i].vmlinuz);
    }
    assert forall|i: int|
        0 <= i < ts.len() && src.contains_key((#[trigger] ts[i]).initrd) implies e1.contains_key(
        ts[i].initrd,
    ) && e1[ts[i].initrd] == src[ts[i].initrd] by {
        lemma_removals_frame(e, installed, ts, ts[i].initrd);
    }
    lemma_removals_frame(e, installed, ts, spec_ucode_name());
}

/// What the entry of target `i` holds after the install pass: its content
/// as written right after its own images, provided no later target
/// overwrites the same entry id.
pub proof fn lemma_entries_installs_value(
    src: Map<Seq<char>, Seq<u8>>,
    esp0: Map<Seq<char>, Seq<u8>>,
    entries0: Map<Seq<char>, Seq<char>>,
    ts: Seq<KernelView>,
    i: int,
)
    requires
        0 <= i < ts.len(),
        forall|a: int, b: int|
            0 <= a < ts.len() && 0 <= b < ts.len() && a != b ==> (#[trigger] ts[a]).entry
                != (#[trigger] ts[b]).entry,
    ensures
        entries_after_installs(src, esp0, entries0, ts).contains_key(ts[i].entry),
        entries_after_installs(src, esp0, entries0, ts)[ts[i].entry] == spec_entry_content(
            ts[i],
            src.contains_key(spec_ucode_name()),
            esp_after_installs(src, esp0, ts.subrange(0, i + 1)).contains_key(ts[i].initrd),
        ),
    decreases ts.len(),
{
    if i == ts.len() - 1 {
        assert(ts.subrange(0, i + 1) =~= ts);
        assert(ts[i] == ts.last());
    } else {
        assert(forall|j: int| 0 <= j < ts.drop_last().len() ==> ts.drop_last()[j] == ts[j]);
        lemma_entries_installs_value(src, esp0, entries0, ts.drop_last(), i);
        assert(ts.drop_last().subrange(0, i + 1) =~= ts.subrange(0, i + 1));
        assert(ts.last().entry != ts[i].entry);
    }
}

/// Reconciling twice with the same available kernels settles after the
/// first run: the second run's installs copy nothing new and rewrite each
/// entry with the same text, its removals remove nothing, and the default
/// pointer names the newest target after each run. The hypotheses exclude
/// degenerate artifact-name collisions: no target's image or initrd is
/// named like the microcode image or like another target's initrd, no two
/// targets share an entry id, what the first run removed shared no names
/// with the targets, and the second discovery finds only target kernels.
pub proof fn lemma_update_idempotent(
    src: Map<Seq<char>, Seq<u8>>,
    esp0: Map<Seq<char>, Seq<u8>>,
    entries0: Map<Seq<char>, Seq<char>>,
    ts: Seq<KernelView>,
    installed: Seq<KernelView>,
    installed2: Seq<KernelView>,
)
    requires
        ts.len() > 0,
        forall|i: int| 0 <= i < ts.len() ==> src.contains_key((#[trigger] ts[i]).vmlinuz),
        forall|i: int|
            0 <= i < ts.len() ==> (#[trigger] ts[i]).vmlinuz != spec_ucode_name() && ts[i].initrd
                != spec_ucode_name(),
        forall|a: int, b: int|
            0 <= a < ts.len() && 0 <= b < ts.len() && a != b ==> (#[trigger] ts[a]).entry
                != (#[trigger] ts[b]).entry,
        forall|a: int, b: int|
            0 <= a < ts.len() && 0 <= b < ts.len() ==> (#[trigger] ts[a]).vmlinuz
                != (#[trigger] ts[b]).initrd,
        forall|j: int, i: int|
            0 <= j < installed.len() && 0 <= i < ts.len() && !in_targets(
                ts,
                #[trigger] installed[j],
            ) ==> installed[j].vmlinuz != (#[trigger] ts[i]).vmlinuz && installed[j].vmlinuz
                != ts[i].initrd && installed[j].initrd != ts[i].vmlinuz && installed[j].initrd
                != ts[i].initrd && installed[j].entry != ts[i].entry,
        forall|j: int|
            0 <= j < installed.len() && !in_targets(ts, #[trigger] installed[j]) ==> installed[
                j
            ].vmlinuz != spec_ucode_name() && installed[j].initrd != spec_ucode_name(),
        forall|j: int| 0 <= j < installed2.len() ==> in_targets(ts, #[trigger] installed2[j]),
    ensures
        ({
            let esp1 = esp_after_removals(esp_after_installs(src, esp0, ts), installed, ts);
            let entries1 = entries_after_removals(
                entries_after_installs(src, esp0, entries0, ts),
                installed,
                ts,
            );
            let esp2 = esp_after_removals(esp_after_installs(src, esp1, ts), installed2, ts);
            let entries2 = entries_after_removals(
                entries_after_installs(src, esp1, entries1, ts),
                installed2,
                ts,
            );
            esp2 == esp1 && entries2 == entries1
        }),
{
    let espi = esp_after_installs(src, esp0, ts);
    let esp1 = esp_after_removals(espi, installed, ts);
    let entriesi = entries_after_installs(src, esp0, entries0, ts);
    let entries1 = entries_after_removals(entriesi, installed, ts);
    // the first run leaves the ESP reflecting every target
    lemma_installs_reflect(src, esp0, ts);
    lemma_removals_preserve_reflect(src, espi, installed, ts);
    // the second install pass changes nothing
    lemma_installs_noop(src, esp1, ts);
    // the second entry pass rewrites the same text
    lemma_entries_second_run(src, esp0, entries0, esp1, entries1, installed, ts, ts.len() as int);
    assert(ts.subrange(0, ts.len() as int) =~= ts);
    // and the second removal pass finds only targets
    lemma_removals_noop(esp1, entries1, None, installed2, ts);
}

/// The second run's entry writes all rewrite the text the first run left
/// behind, so the entries directory does not change.
proof fn lemma_entries_second_run(
    src: Map<Seq<char>, Seq<u8>>,
    esp0: Map<Seq<char>, Seq<u8>>,
    entries0: Map<Seq<char>, Seq<char>>,
    esp1: Map<Seq<char>, Seq<u8>>,
    entries1: Map<Seq<char>, Seq<char>>,
    installed: Seq<KernelView>,
    ts: Seq<KernelView>,
    n: int,
)
    requires
        0 <= n <= ts.len(),
        ts.len() > 0,
        esp1 == esp_after_removals(esp_after_installs(src, esp0, ts), installed, ts),
        entries1 == entries_after_removals(
            entries_after_installs(src, esp0, entries0, ts),
            installed,
            ts,
        ),
        forall|i: int| 0 <= i < ts.len() ==> src.contains_key((#[trigger] ts[i]).vmlinuz),
        forall|i: int|
            0 <= i < ts.len() ==> (#[trigger] ts[i]).vmlinuz != spec_ucode_name() && ts[i].initrd
                != spec_ucode_name(),
        forall|a: int, b: int|
            0 <= a < ts.len() && 0 <= b < ts.len() && a != b ==> (#[trigger] ts[a]).entry
                != (#[trigger] ts[b]).entry,
        forall|a: int, b: int|
            0 <= a < ts.len() && 0 <= b < ts.len() ==> (#[trigger] ts[a]).vmlinuz
                != (#[trigger] ts[b]).initrd,
        forall|j: int, i: int|
            0 <= j < installed.len() && 0 <= i < ts.len() && !in_targets(
                ts,
                #[trigger] installed[j],
            ) ==> installed[j].vmlinuz != (#[trigger] ts[i]).vmlinuz && installed[j].vmlinuz
                != ts[i].initrd && installed[j].initrd != ts[i].vmlinuz && installed[j].initrd
                != ts[i].initrd && installed[j].entry != ts[i].entry,
        forall|j: int|
            0 <= j < installed.len() && !in_targets(ts, #[trigger] installed[j]) ==> installed[
                j
            ].vmlinuz != spec_ucode_name() && installed[j].initrd != spec_ucode_name(),
    ensures
        entries_after_installs(src, esp1, entries1, ts.subrange(0, n)) == entries1,
    decreases n,
{
    let espi = esp_after_installs(src, esp0, ts);
    lemma_installs_reflect(src, esp0, ts);
    lemma_removals_preserve_reflect(src, espi, installed, ts);
    if n == 0 {
        assert(ts.subrange(0, 0) =~= Seq::<KernelView>::empty());
    } else {
        lemma_entries_second_run(src, esp0, entries0, esp1, entries1, installed, ts, n - 1);
        let pre = ts.subrange(0, n);
        let k = ts[n - 1];
        assert(pre.drop_last() =~= ts.subrange(0, n - 1));
        assert(pre.last() == k);
        // the second pass leaves the ESP at `esp1` at every step
        assert(forall|j: int| 0 <= j < pre.len() ==> pre[j] == ts[j]);
        lemma_installs_noop(src, esp1, pre);
        // the content written again equals what the first run wrote
        let has_initrd_2 = esp_after_installs(src, esp1, pre).contains_key(k.initrd);
        lemma_entries_installs_value(src, esp0, entries0, ts, n - 1);
        lemma_entries_removals_frame(
            entries_after_installs(src, esp0, entries0, ts),
            installed,
            ts,
            k.entry,
        );
        let has_initrd_1 = esp_after_installs(src, esp0, ts.subrange(0, n)).contains_key(
            k.initrd,
        );
        if src.contains_key(k.initrd) {
            // the kernel's own install put the initrd there in both runs
            assert(forall|j: int| 0 <= j < pre.len() ==> pre[j] == ts[j]);
            lemma_installs_reflect(src, esp0, pre);
            assert(has_initrd_1);
            assert(has_initrd_2);
        } else {
            // neither run ever writes this initrd name
            assert(forall|j: int| 0 <= j < pre.len() ==> pre[j] == ts[j]);
            lemma_installs_frame(src, esp0, pre, k.initrd);
            lemma_installs_frame(src, esp0, ts, k.initrd);
            lemma_removals_frame(espi, installed, ts, k.initrd);
            lemma_installs_frame(src, esp1, pre, k.initrd);
            assert(has_initrd_1 == esp0.contains_key(k.initrd));
            assert(has_initrd_2 == esp0.contains_key(k.initrd));
        }
        assert(entries1.contains_key(k.entry));
        assert(entries1[k.entry] == spec_entry_content(
            k,
            src.contains_key(spec_ucode_name()),
            has_initrd_2,
        ));
        assert(entries_after_installs(src, esp1, entries1, pre) =~= entries1);
    }
}

/// Whether some kernel among the first `upto` of `ks` is the same kernel.
fn contains_kernel(ks: &Vec<Kernel>, upto: usize, k: &Kernel) -> (r: bool)
    requires
        upto <= ks@.len(),
    ensures
        r == in_targets(kviews(ks@).subrange(0, upto as int), k@),
{
    let ghost ts = kviews(ks@).subrange(0, upto as int);
    let mut i: usize = 0;
    loop
        invariant
            0 <= i <= upto <= ks@.len(),
            ts == kviews(ks@).subrange(0, upto as int),
            forall|j: int| 0 <= j < i ==> !kernel_same(#[trigger] ts[j], k@),
        ensures
            i <= upto,
            i < upto ==> kernel_same(ts[i as int], k@),
            forall|j: int| 0 <= j < i ==> !kernel_same(#[trigger] ts[j], k@),
        decreases upto - i,
    {
        if i == upto {
            break ;
        }
        if ks[i].same_kernel(k) {
            proof {
                assert(ts[i as int] == ks@[i as int]@);
            }
            break ;
        }
        proof {
            assert(ts[i as int] == ks@[i as int]@);
        }
        i = i + 1;
    }
    i < upto
}

/// The kernel at a chosen position in a list, for the selection flows:
/// asking for any kernel of an empty list is one error, a position past
/// the end is the other.
pub fn kernel_at(kernels: &Vec<Kernel>, index: usize) -> (r: Result<&Kernel, Error>)
    ensures
        r is Ok <==> index < kernels@.len(),
        r matches Ok(k) ==> k@ == kernels@[index as int]@,
        r matches Err(e) ==> (if kernels@.len() == 0 {
            e is EmptySelection
        } else {
            e is InvalidIndex
        }),
{
    if kernels.len() == 0 {
        Err(Error::EmptySelection)
    } else if index >= kernels.len() {
        Err(Error::InvalidIndex)
    } else {
        Ok(&kernels[index])
    }
}

/// Manages the available and installed kernel lists of one run.
pub struct KernelManager {
    pub kernels: Vec<Kernel>,
    pub installed_kernels: Vec<Kernel>,
}

impl KernelManager {
    /// A manager over the available kernels and the installed ones, both
    /// expected newest first.
    pub fn new(kernels: Vec<Kernel>, installed_kernels: Vec<Kernel>) -> (r: KernelManager)
        ensures
            r.kernels == kernels,
            r.installed_kernels == installed_kernels,
    {
        KernelManager { kernels, installed_kernels }
    }

    /// Reconciles the model with the available kernels: installs the
    /// newest `keep` available kernels and (re)writes their entries,
    /// then removes every installed kernel that is not among them, and
    /// finally makes the newest one the default. Installing comes before
    /// removing; an install failure aborts and is propagated, while
    /// removals never fail. With nothing to install the directories are
    /// not required and nothing is installed or made default.
    #[verifier::loop_isolation(false)]
    #[verifier::rlimit(100)]
    pub fn update(&self, config: &Config, env: &mut BootEnv, plan: &mut Vec<Action>) -> (r:
        Result<(), Error>)
        requires
            old(env).wf(),
        ensures
            final(env).wf(),
            ({
                let keep = spec_keep(config@.keep, self.kernels@.len() as int);
                let targets = kviews(self.kernels@).subrange(0, keep);
                let installed = kviews(self.installed_kernels@);
                let src = old(env).source@;
                let esp1 = esp_after_installs(src, old(env).esp@, targets);
                let entries1 = entries_after_installs(
                    src,
                    old(env).esp@,
                    old(env).entries@,
                    targets,
                );
                &&& (r is Ok <==> (keep == 0 || (old(env).esp_dir_exists && old(
                    env,
                ).entries_dir_exists && forall|i: int|
                    0 <= i < keep ==> src.contains_key(#[trigger] targets[i].vmlinuz))))
                &&& (r is Ok ==> final(env).esp@ == esp_after_removals(esp1, installed, targets))
                &&& (r is Ok ==> final(env).entries@ == entries_after_removals(
                    entries1,
                    installed,
                    targets,
                ))
                &&& (r is Ok ==> final(env).spec_default() == (if keep > 0 {
                    Some(targets[0].entry)
                } else {
                    default_after_removals(old(env).spec_default(), installed, targets)
                }))
                &&& (r is Ok ==> crate::plan::views_of(final(plan)@) == crate::plan::views_of(
                    old(plan)@,
                ) + update_install_actions(src, old(env).esp@, targets) + update_removal_actions(
                    esp1,
                    entries1,
                    old(env).spec_default(),
                    installed,
                    targets,
                ) + (if keep > 0 {
                    seq![
                        crate::plan::ActionView::SetDefault { entry: Some(targets[0].entry) },
                    ]
                } else {
                    Seq::<crate::plan::ActionView>::empty()
                }))
            }),
            final(env).source@ == old(env).source@,
            final(env).timeout == old(env).timeout,
            final(env).esp_dir_exists == old(env).esp_dir_exists,
            final(env).entries_dir_exists == old(env).entries_dir_exists,
    {
        let n = self.kernels.len();
        let keep = match config.keep {
            Some(k) => if k < n {
                k
            } else {
                n
            },
            None => n,
        };
        let ghost targets = kviews(self.kernels@).subrange(0, keep as int);
        let ghost src0 = old(env).source@;
        let ghost esp0 = old(env).esp@;
        let ghost entries0 = old(env).entries@;
        // Install the newest `keep` kernels, newest first.
        let mut i: usize = 0;
        while i < keep
            invariant
                0 <= i <= keep <= n,
                n == self.kernels@.len(),
                keep as int == spec_keep(config@.keep, self.kernels@.len() as int),
                targets == kviews(self.kernels@).subrange(0, keep as int),
                env.wf(),
                env.source@ == src0,
                env.esp@ == esp_after_installs(src0, esp0, targets.subrange(0, i as int)),
                env.entries@ == entries_after_installs(
                    src0,
                    esp0,
                    entries0,
                    targets.subrange(0, i as int),
                ),
                env.spec_default() == old(env).spec_default(),
                env.timeout == old(env).timeout,
                env.esp_dir_exists == old(env).esp_dir_exists,
                env.entries_dir_exists == old(env).entries_dir_exists,
                i > 0 ==> old(env).esp_dir_exists && old(env).entries_dir_exists,
                forall|j: int| 0 <= j < i ==> src0.contains_key(#[trigger] targets[j].vmlinuz),
                crate::plan::views_of(plan@) == crate::plan::views_of(old(plan)@)
                    + update_install_actions(src0, esp0, targets.subrange(0, i as int)),
            decreases keep - i,
        {
            let ghost pre = targets.subrange(0, i as int);
            let ghost pre1 = targets.subrange(0, i + 1);
            proof {
                assert(pre1.drop_last() =~= pre);
                assert(pre1.last() == targets[i as int]);
                assert(targets[i as int] == self.kernels@[i as int]@);
            }
            match self.kernels[i].install_and_make_config(env, plan, true) {
                Ok(_) => {},
                Err(e) => {
                    proof {
                        let keep_s = spec_keep(config@.keep, self.kernels@.len() as int);
                        assert(keep_s == keep as int);
                        assert(kviews(self.kernels@).subrange(0, keep_s) == targets);
                        assert(!(old(env).esp_dir_exists && old(env).entries_dir_exists
                            && src0.contains_key(targets[i as int].vmlinuz)));
                    }
                    return Err(e);
                },
            }
            proof {
                assert(esp_after_installs(src0, esp0, pre1) == spec_esp_after_install(
                    src0,
                    esp_after_installs(src0, esp0, pre),
                    targets[i as int],
                ));
                assert(crate::plan::views_of(plan@) =~= crate::plan::views_of(old(plan)@)
                    + update_install_actions(src0, esp0, pre1));
            }
            i = i + 1;
        }
        // Remove every installed kernel that is no longer a target.
        let ghost esp1 = esp_after_installs(src0, esp0, targets);
        let ghost entries1 = entries_after_installs(src0, esp0, entries0, targets);
        proof {
            assert(targets.subrange(0, keep as int) =~= targets);
        }
        let m = self.installed_kernels.len();
        let ghost installed = kviews(self.installed_kernels@);
        let mut j: usize = 0;
        while j < m
            invariant
                0 <= j <= m,
                m == self.installed_kernels@.len(),
                installed == kviews(self.installed_kernels@),
                targets == kviews(self.kernels@).subrange(0, keep as int),
                keep as int == spec_keep(config@.keep, self.kernels@.len() as int),
                keep <= self.kernels@.len(),
                env.wf(),
                env.source@ == src0,
                env.esp@ == esp_after_removals(esp1, installed.subrange(0, j as int), targets),
                env.entries@ == entries_after_removals(
                    entries1,
                    installed.subrange(0, j as int),
                    targets,
                ),
                env.spec_default() == default_after_removals(
                    old(env).spec_default(),
                    installed.subrange(0, j as int),
                    targets,
                ),
                env.timeout == old(env).timeout,
                env.esp_dir_exists == old(env).esp_dir_exists,
                env.entries_dir_exists == old(env).entries_dir_exists,
                crate::plan::views_of(plan@) == crate::plan::views_of(old(plan)@)
                    + update_install_actions(src0, esp0, targets) + update_removal_actions(
                    esp1,
                    entries1,
                    old(env).spec_default(),
                    installed.subrange(0, j as int),
                    targets,
                ),
            decreases m - j,
        {
            let ghost pre = installed.subrange(0, j as int);
            let ghost pre1 = installed.subrange(0, j + 1);
            proof {
                assert(pre1.drop_last() =~= pre);
                assert(pre1.last() == installed[j as int]);
                assert(installed[j as int] == self.installed_kernels@[j as int]@);
            }
            let obsolete = !contains_kernel(&self.kernels, keep, &self.installed_kernels[j]);
            if obsolete {
                self.installed_kernels[j].remove(env, plan);
            }
            proof {
                assert(crate::plan::views_of(plan@) =~= crate::plan::views_of(old(plan)@)
                    + update_install_actions(src0, esp0, targets) + update_removal_actions(
                    esp1,
                    entries1,
                    old(env).spec_default(),
                    pre1,
                    targets,
                ));
            }
            j = j + 1;
        }
        proof {
            assert(installed.subrange(0, m as int) =~= installed);
        }
        // The newest target becomes the default.
        if keep > 0 {
            proof {
                assert(targets[0] == self.kernels@[0]@);
            }
            let ghost plan3 = plan@;
            self.kernels[0].set_default(env, plan);
            proof {
                crate::plan::lemma_pushed_views(
                    plan3,
                    plan@,
                    crate::plan::ActionView::SetDefault { entry: Some(targets[0].entry) },
                );
                assert(crate::plan::views_of(plan@) =~= crate::plan::views_of(old(plan)@)
                    + update_install_actions(src0, esp0, targets) + update_removal_actions(
                    esp1,
                    entries1,
                    old(env).spec_default(),
                    installed,
                    targets,
                ) + seq![
                    crate::plan::ActionView::SetDefault { entry: Some(targets[0].entry) },
                ]);
            }
        } else {
            proof {
                assert(crate::plan::views_of(plan@) =~= crate::plan::views_of(old(plan)@)
                    + update_install_actions(src0, esp0, targets) + update_removal_actions(
                    esp1,
                    entries1,
                    old(env).spec_default(),
                    installed,
                    targets,
                ) + Seq::<crate::plan::ActionView>::empty());
            }
        }
        Ok(())
    }

    /// Installs one kernel and writes its entry; identical to the batch
    /// case, scaled to one kernel.
    pub fn install(
        kernel: &Kernel,
        force: bool,
        env: &mut BootEnv,
        plan: &mut Vec<Action>,
    ) -> (r: Result<MakeConfigOutcome, Error>)
        requires
            old(env).wf(),
        ensures
            final(env).wf(),
            r is Ok <==> (old(env).esp_dir_exists && old(env).entries_dir_exists && old(
                env,
            ).source@.contains_key(kernel@.vmlinuz)),
            r is Ok ==> {
                let esp1 = spec_esp_after_install(old(env).source@, old(env).esp@, kernel@);
                &&& final(env).esp@ == esp1
                &&& final(env).entries@ == (if spec_config_written(
                    old(env).entries@,
                    kernel@,
                    force,
                ) {
                    old(env).entries@.insert(
                        kernel@.entry,
                        spec_entry_content(
                            kernel@,
                            old(env).source@.contains_key(spec_ucode_name()),
                            esp1.contains_key(kernel@.initrd),
                        ),
                    )
                } else {
                    old(env).entries@
                })
            },
            final(env).source@ == old(env).source@,
            final(env).spec_default() == old(env).spec_default(),
            final(env).timeout == old(env).timeout,
            final(env).esp_dir_exists == old(env).esp_dir_exists,
            final(env).entries_dir_exists == old(env).entries_dir_exists,
    {
        kernel.install_and_make_config(env, plan, force)
    }

    /// One line per available kernel, newest first: whether it is
    /// installed, and its rendered version.
    pub fn list_available(&self) -> (r: Vec<(bool, String)>)
        ensures
            r@.len() == self.kernels@.len(),
            forall|i: int|
                0 <= i < r@.len() ==> (#[trigger] r@[i]).0 == in_targets(
                    kviews(self.installed_kernels@).subrange(
                        0,
                        self.installed_kernels@.len() as int,
                    ),
                    self.kernels@[i]@,
                ),
            forall|i: int|
                0 <= i < r@.len() ==> (#[trigger] r@[i]).1@ == crate::version::spec_render(
                    self.kernels@[i]@.version,
                ),
    {
        let n = self.kernels.len();
        let m = self.installed_kernels.len();
        let mut out: Vec<(bool, String)> = Vec::new();
        let mut i: usize = 0;
        while i < n
            invariant
                0 <= i <= n,
                n == self.kernels@.len(),
                m == self.installed_kernels@.len(),
                out@.len() == i,
                forall|j: int|
                    0 <= j < i ==> (#[trigger] out@[j]).0 == in_targets(
                        kviews(self.installed_kernels@).subrange(
                            0,
                            self.installed_kernels@.len() as int,
                        ),
                        self.kernels@[j]@,
                    ),
                forall|j: int|
                    0 <= j < i ==> (#[trigger] out@[j]).1@ == crate::version::spec_render(
                        self.kernels@[j]@.version,
                    ),
            decreases n - i,
        {
            let mark = contains_kernel(&self.installed_kernels, m, &self.kernels[i]);
            let line = self.kernels[i].render();
            out.push((mark, line));
            i = i + 1;
        }
        out
    }

    /// One line per installed kernel, newest first: whether it is the
    /// loader default, and its rendered version.
    pub fn list_installed(&self, env: &BootEnv) -> (r: Vec<(bool, String)>)
        ensures
            r@.len() == self.installed_kernels@.len(),
            forall|i: int|
                0 <= i < r@.len() ==> (#[trigger] r@[i]).0 == (env.spec_default() == Some(
                    self.installed_kernels@[i]@.entry,
                )),
            forall|i: int|
                0 <= i < r@.len() ==> (#[trigger] r@[i]).1@ == crate::version::spec_render(
                    self.installed_kernels@[i]@.version,
                ),
    {
        let m = self.installed_kernels.len();
        let mut out: Vec<(bool, String)> = Vec::new();
        let mut i: usize = 0;
        while i < m
            invariant
                0 <= i <= m,
                m == self.installed_kernels@.len(),
                out@.len() == i,
                forall|j: int|
                    0 <= j < i ==> (#[trigger] out@[j]).0 == (env.spec_default() == Some(
                        self.installed_kernels@[j]@.entry,
                    )),
                forall|j: int|
                    0 <= j < i ==> (#[trigger] out@[j]).1@ == crate::version::spec_render(
                        self.installed_kernels@[j]@.version,
                    ),
            decreases m - i,
        {
            let is_default = match &env.default_entry {
                Some(e) => crate::fsmodel::str_eq(
                    e.as_str(),
                    self.installed_kernels[i].entry.as_str(),
                ),
                None => false,
            };
            let line = self.installed_kernels[i].render();
            out.push((is_default, line));
            i = i + 1;
        }
        out
    }
}

} // verus!
