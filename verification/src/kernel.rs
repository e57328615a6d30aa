//! The per-kernel lifecycle: a kernel named by its package directory name,
//! its derived image and entry filenames, and the operations that install
//! it to the ESP model, write its boot entry, remove it, and set or clear
//! the loader's default pointer.

use vstd::multiset::Multiset;
use vstd::prelude::*;
use vstd::string::*;

use crate::config::{Config, ConfigView};
use crate::copier::VerifiedCopier;
use crate::error::Error;
use crate::fsmodel::BootEnv;
use crate::plan::{pushed, views_of, Action, ActionView};
use crate::template::{spec_replace, spec_version_token};
use crate::version::{spec_parse, spec_render, Version, VersionView};

verus! {

/// Name of the CPU microcode image looked for beside the kernel images.
pub open spec fn spec_ucode_name() -> Seq<char> {
    "intel-ucode.img"@
}

/// Executable counterpart of [`spec_ucode_name`].
pub fn ucode_name() -> (r: &'static str)
    ensures
        r@ == spec_ucode_name(),
{
    "intel-ucode.img"
}

/// Mathematical image of a kernel.
pub struct KernelView {
    pub version: VersionView,
    pub vmlinuz: Seq<char>,
    pub initrd: Seq<char>,
    pub distro: Seq<char>,
    pub esp_mountpoint: Seq<char>,
    pub entry: Seq<char>,
    pub bootarg: Seq<char>,
}

/// One kernel, named by its package directory name, with its filenames
/// fully expanded at construction.
#[derive(Debug, Clone)]
pub struct Kernel {
    pub version: Version,
    pub vmlinuz: String,
    pub initrd: String,
    pub distro: String,
    pub esp_mountpoint: String,
    pub entry: String,
    pub bootarg: String,
}

impl View for Kernel {
    type V = KernelView;

    open spec fn view(&self) -> KernelView {
        KernelView {
            version: self.version@,
            vmlinuz: self.vmlinuz@,
            initrd: self.initrd@,
            distro: self.distro@,
            esp_mountpoint: self.esp_mountpoint@,
            entry: self.entry@,
            bootarg: self.bootarg@,
        }
    }
}

/// The kernel that a name yields under a configuration: filenames come
/// from the templates with the raw name substituted, and the entry id is
/// the raw name with `.conf` appended.
pub open spec fn spec_kernel_of(c: ConfigView, name: Seq<char>) -> KernelView {
    KernelView {
        version: spec_parse(name)->Some_0,
        vmlinuz: spec_replace(c.vmlinux, spec_version_token(), name),
        initrd: spec_replace(c.initrd, spec_version_token(), name),
        distro: c.distro,
        esp_mountpoint: c.esp_mountpoint,
        entry: name + ".conf"@,
        bootarg: c.bootarg,
    }
}

/// The identity used by reconciliation: same parsed version (local suffix
/// included) and same derived filenames. Two kernels with equal numeric
/// versions but different local suffixes are distinct.
pub open spec fn kernel_same(a: KernelView, b: KernelView) -> bool {
    a.version == b.version && a.vmlinuz == b.vmlinuz && a.initrd == b.initrd && a.entry == b.entry
}

/// What the ESP install directory holds after installing `k`: the kernel
/// image always; the initrd image when the source has one; the microcode
/// image refreshed when its source exists and deleted when it does not
/// (a stale copy must not outlive its source).
pub open spec fn spec_esp_after_install(
    src: Map<Seq<char>, Seq<u8>>,
    esp0: Map<Seq<char>, Seq<u8>>,
    k: KernelView,
) -> Map<Seq<char>, Seq<u8>> {
    let e1 = esp0.insert(k.vmlinuz, src[k.vmlinuz]);
    let e2 = if src.contains_key(k.initrd) {
        e1.insert(k.initrd, src[k.initrd])
    } else {
        e1
    };
    if src.contains_key(spec_ucode_name()) {
        e2.insert(spec_ucode_name(), src[spec_ucode_name()])
    } else {
        e2.remove(spec_ucode_name())
    }
}

/// The text of a boot entry: title, kernel image path, the microcode
/// initrd line before the kernel initrd line (each only when the image is
/// present on the ESP), then the options line.
pub open spec fn spec_entry_content(k: KernelView, has_ucode: bool, has_initrd: bool) -> Seq<
    char,
> {
    "title "@ + k.distro + " ("@ + spec_render(k.version) + ")\n"@ + "linux /"@
        + crate::spec_rel_dest_path() + k.vmlinuz + "\n"@ + (if has_ucode {
        "initrd /"@ + crate::spec_rel_dest_path() + spec_ucode_name() + "\n"@
    } else {
        Seq::<char>::empty()
    }) + (if has_initrd {
        "initrd /"@ + crate::spec_rel_dest_path() + k.initrd + "\n"@
    } else {
        Seq::<char>::empty()
    }) + "options "@ + k.bootarg + "\n"@
}

/// Whether copying `name` from the source onto this ESP state would move
/// bytes (the destination is absent or differs).
pub open spec fn copy_writes(
    src: Map<Seq<char>, Seq<u8>>,
    esp: Map<Seq<char>, Seq<u8>>,
    name: Seq<char>,
) -> bool {
    !(esp.contains_key(name) && esp[name] == src[name])
}

/// The disk actions that installing `k` decides on, in order: each image
/// copied only when it would change the destination, and the stale
/// microcode image deleted when its source is gone.
pub open spec fn spec_install_actions(
    src: Map<Seq<char>, Seq<u8>>,
    esp0: Map<Seq<char>, Seq<u8>>,
    k: KernelView,
) -> Seq<ActionView> {
    let a1 = if copy_writes(src, esp0, k.vmlinuz) {
        seq![ActionView::CopyToEsp { name: k.vmlinuz }]
    } else {
        Seq::<ActionView>::empty()
    };
    let e1 = esp0.insert(k.vmlinuz, src[k.vmlinuz]);
    let a2 = if src.contains_key(k.initrd) && copy_writes(src, e1, k.initrd) {
        seq![ActionView::CopyToEsp { name: k.initrd }]
    } else {
        Seq::<ActionView>::empty()
    };
    let e2 = if src.contains_key(k.initrd) {
        e1.insert(k.initrd, src[k.initrd])
    } else {
        e1
    };
    let a3 = if src.contains_key(spec_ucode_name()) {
        if copy_writes(src, e2, spec_ucode_name()) {
            seq![ActionView::CopyToEsp { name: spec_ucode_name() }]
        } else {
            Seq::<ActionView>::empty()
        }
    } else {
        if e2.contains_key(spec_ucode_name()) {
            seq![ActionView::RemoveFromEsp { name: spec_ucode_name() }]
        } else {
            Seq::<ActionView>::empty()
        }
    };
    a1 + a2 + a3
}

/// The disk actions that removing `k` decides on, in order: each artifact
/// deleted only if present, and the default pointer cleared only if it
/// named this kernel's entry.
pub open spec fn spec_remove_actions(
    esp: Map<Seq<char>, Seq<u8>>,
    entries: Map<Seq<char>, Seq<char>>,
    d: Option<Seq<char>>,
    k: KernelView,
) -> Seq<ActionView> {
    (if esp.contains_key(k.vmlinuz) {
        seq![ActionView::RemoveFromEsp { name: k.vmlinuz }]
    } else {
        Seq::<ActionView>::empty()
    }) + (if esp.remove(k.vmlinuz).contains_key(k.initrd) {
        seq![ActionView::RemoveFromEsp { name: k.initrd }]
    } else {
        Seq::<ActionView>::empty()
    }) + (if entries.contains_key(k.entry) {
        seq![ActionView::RemoveEntry { name: k.entry }]
    } else {
        Seq::<ActionView>::empty()
    }) + (if d == Some(k.entry) {
        seq![ActionView::SetDefault { entry: None }]
    } else {
        Seq::<ActionView>::empty()
    })
}

/// Whether writing the entry file is allowed: always under `force_write`,
/// else only when no entry file of this name exists yet.
pub open spec fn spec_config_written(
    entries0: Map<Seq<char>, Seq<char>>,
    k: KernelView,
    force_write: bool,
) -> bool {
    force_write || !entries0.contains_key(k.entry)
}

/// Result of [`Kernel::make_config`]: either the entry was written, or an
/// entry file already exists and the caller must confirm overwriting
/// before calling again with `force_write`.
#[derive(Debug, PartialEq, Eq, Structural)]
pub enum MakeConfigOutcome {
    Written,
    WouldOverwrite,
}

impl Kernel {
    /// Parses a kernel package or directory name under a configuration.
    /// Succeeds exactly on names the version grammar accepts.
    pub fn parse(config: &Config, kernel_name: &str) -> (r: Result<Kernel, Error>)
        ensures
            r is Ok <==> spec_parse(kernel_name@) is Some,
            r matches Ok(k) ==> k@ == spec_kernel_of(config@, kernel_name@),
            r matches Err(e) ==> e is InvalidVersion,
    {
        let version = match Version::parse(kernel_name) {
            Ok(v) => v,
            Err(e) => {
                return Err(e);
            },
        };
        let vmlinuz = crate::template::expand(config.vmlinux.as_str(), kernel_name);
        let initrd = crate::template::expand(config.initrd.as_str(), kernel_name);
        let mut entry = String::from_str(kernel_name);
        entry.append(".conf");
        Ok(
            Kernel {
                version,
                vmlinuz,
                initrd,
                distro: config.distro.clone(),
                esp_mountpoint: config.esp_mountpoint.clone(),
                entry,
                bootarg: config.bootarg.clone(),
            },
        )
    }

    /// The reconciliation identity (see [`kernel_same`]).
    pub fn same_kernel(&self, other: &Kernel) -> (r: bool)
        ensures
            r == kernel_same(self@, other@),
    {
        self.version == other.version && crate::fsmodel::str_eq(
            self.vmlinuz.as_str(),
            other.vmlinuz.as_str(),
        ) && crate::fsmodel::str_eq(self.initrd.as_str(), other.initrd.as_str())
            && crate::fsmodel::str_eq(self.entry.as_str(), other.entry.as_str())
    }

    /// The rendered version, used for display.
    pub fn render(&self) -> (r: String)
        ensures
            r@ == spec_render(self@.version),
    {
        self.version.render()
    }

    /// The text of this kernel's boot entry given which images are present
    /// on the ESP.
    pub fn entry_content(&self, has_ucode: bool, has_initrd: bool) -> (r: String)
        ensures
            r@ == spec_entry_content(self@, has_ucode, has_initrd),
    {
        let mut s = String::new();
        s.append("title ");
        s.append(self.distro.as_str());
        s.append(" (");
        let rendered = self.version.render();
        s.append(rendered.as_str());
        s.append(")\n");
        s.append("linux /");
        s.append(crate::rel_dest_path());
        s.append(self.vmlinuz.as_str());
        s.append("\n");
        if has_ucode {
            s.append("initrd /");
            s.append(crate::rel_dest_path());
            s.append(ucode_name());
            s.append("\n");
        }
        if has_initrd {
            s.append("initrd /");
            s.append(crate::rel_dest_path());
            s.append(self.initrd.as_str());
            s.append("\n");
        }
        s.append("options ");
        s.append(self.bootarg.as_str());
        s.append("\n");
        proof {
            assert(s@ =~= spec_entry_content(self@, has_ucode, has_initrd));
        }
        s
    }

    /// Installs this kernel's images to the ESP install directory of the
    /// model. Fails with `PathNotInitialized` when that directory does not
    /// exist and with `Missing` when the source kernel image is absent; a
    /// missing source initrd is never an error. On failure nothing
    /// changes.
    pub fn install(&self, env: &mut BootEnv, plan: &mut Vec<Action>) -> (r: Result<(), Error>)
        requires
            old(env).wf(),
        ensures
            final(env).wf(),
            r is Ok <==> old(env).esp_dir_exists && old(env).source@.contains_key(self@.vmlinuz),
            r is Err ==> final(env).esp@ == old(env).esp@ && final(plan)@ == old(plan)@,
            r is Err ==> (if !old(env).esp_dir_exists {
                r->Err_0 is PathNotInitialized
            } else {
                r->Err_0 is Missing
            }),
            r is Ok ==> final(env).esp@ == spec_esp_after_install(
                old(env).source@,
                old(env).esp@,
                self@,
            ),
            r is Ok ==> views_of(final(plan)@) == views_of(old(plan)@) + spec_install_actions(
                old(env).source@,
                old(env).esp@,
                self@,
            ),
            final(env).source@ == old(env).source@,
            final(env).entries@ == old(env).entries@,
            final(env).spec_default() == old(env).spec_default(),
            final(env).timeout == old(env).timeout,
            final(env).esp_dir_exists == old(env).esp_dir_exists,
            final(env).entries_dir_exists == old(env).entries_dir_exists,
    {
        if !env.esp_dir_exists {
            return Err(Error::PathNotInitialized(self.esp_mountpoint.clone()));
        }
        let ghost src0 = env.source@;
        let ghost esp0 = env.esp@;
        let ghost acts = spec_install_actions(src0, esp0, self@);
        let w1 = match VerifiedCopier::copy(&env.source, self.vmlinuz.as_str(), &mut env.esp, plan)
            {
            Ok(w) => w,
            Err(e) => {
                return Err(e);
            },
        };
        let ghost a1 = if copy_writes(src0, esp0, self@.vmlinuz) {
            seq![ActionView::CopyToEsp { name: self@.vmlinuz }]
        } else {
            Seq::<ActionView>::empty()
        };
        proof {
            if w1 {
                crate::plan::lemma_pushed_views(
                    old(plan)@,
                    plan@,
                    ActionView::CopyToEsp { name: self@.vmlinuz },
                );
            }
            assert(views_of(plan@) =~= views_of(old(plan)@) + a1);
        }
        let ghost e1 = env.esp@;
        let ghost plan1 = plan@;
        if env.source.contains(self.initrd.as_str()) {
            match VerifiedCopier::copy(&env.source, self.initrd.as_str(), &mut env.esp, plan) {
                Ok(w) => {
                    proof {
                        if w {
                            crate::plan::lemma_pushed_views(
                                plan1,
                                plan@,
                                ActionView::CopyToEsp { name: self@.initrd },
                            );
                        }
                    }
                },
                Err(e) => {
                    proof {
                        assert(false);
                    }
                    return Err(e);
                },
            }
        }
        let ghost a2 = if src0.contains_key(self@.initrd) && copy_writes(src0, e1, self@.initrd) {
            seq![ActionView::CopyToEsp { name: self@.initrd }]
        } else {
            Seq::<ActionView>::empty()
        };
        proof {
            assert(views_of(plan@) =~= views_of(old(plan)@) + a1 + a2);
        }
        let ghost e2 = env.esp@;
        let ghost plan2 = plan@;
        if env.source.contains(ucode_name()) {
            match VerifiedCopier::copy(&env.source, ucode_name(), &mut env.esp, plan) {
                Ok(w) => {
                    proof {
                        if w {
                            crate::plan::lemma_pushed_views(
                                plan2,
                                plan@,
                                ActionView::CopyToEsp { name: spec_ucode_name() },
                            );
                        }
                    }
                },
                Err(e) => {
                    proof {
                        assert(false);
                    }
                    return Err(e);
                },
            }
        } else {
            if env.esp.contains(ucode_name()) {
                env.esp.remove(ucode_name());
                plan.push(Action::RemoveFromEsp { name: String::from_str(ucode_name()) });
                proof {
                    assert(plan@.drop_last() =~= plan2);
                    crate::plan::lemma_pushed_views(
                        plan2,
                        plan@,
                        ActionView::RemoveFromEsp { name: spec_ucode_name() },
                    );
                }
            } else {
                proof {
                    assert(env.esp@ =~= env.esp@.remove(spec_ucode_name()));
                }
            }
        }
        proof {
            let a3 = if src0.contains_key(spec_ucode_name()) {
                if copy_writes(src0, e2, spec_ucode_name()) {
                    seq![ActionView::CopyToEsp { name: spec_ucode_name() }]
                } else {
                    Seq::<ActionView>::empty()
                }
            } else {
                if e2.contains_key(spec_ucode_name()) {
                    seq![ActionView::RemoveFromEsp { name: spec_ucode_name() }]
                } else {
                    Seq::<ActionView>::empty()
                }
            };
            assert(views_of(plan@) =~= views_of(old(plan)@) + a1 + a2 + a3);
            assert(acts == a1 + a2 + a3);
            assert(views_of(plan@) =~= views_of(old(plan)@) + acts);
        }
        Ok(())
    }

    /// Writes this kernel's boot entry file, with the content fixed by
    /// [`spec_entry_content`] from what the ESP holds at this moment.
    /// Fails with `PathNotInitialized` when the entries directory does not
    /// exist; reports `WouldOverwrite`, writing nothing, when an entry
    /// file already exists and `force_write` is not set.
    pub fn make_config(
        &self,
        env: &mut BootEnv,
        plan: &mut Vec<Action>,
        force_write: bool,
    ) -> (r: Result<MakeConfigOutcome, Error>)
        requires
            old(env).wf(),
        ensures
            final(env).wf(),
            r is Ok <==> old(env).entries_dir_exists,
            r is Err ==> final(env).entries@ == old(env).entries@ && final(plan)@ == old(plan)@
                && (r->Err_0 is PathNotInitialized),
            r == Ok::<MakeConfigOutcome, Error>(MakeConfigOutcome::WouldOverwrite) <==> (old(
                env,
            ).entries_dir_exists && !spec_config_written(old(env).entries@, self@, force_write)),
            r is Ok ==> final(env).entries@ == (if spec_config_written(
                old(env).entries@,
                self@,
                force_write,
            ) {
                old(env).entries@.insert(
                    self@.entry,
                    spec_entry_content(
                        self@,
                        old(env).esp@.contains_key(spec_ucode_name()),
                        old(env).esp@.contains_key(self@.initrd),
                    ),
                )
            } else {
                old(env).entries@
            }),
            r == Ok::<MakeConfigOutcome, Error>(MakeConfigOutcome::Written) ==> pushed(
                old(plan)@,
                final(plan)@,
                ActionView::WriteEntry {
                    name: self@.entry,
                    content: spec_entry_content(
                        self@,
                        old(env).esp@.contains_key(spec_ucode_name()),
                        old(env).esp@.contains_key(self@.initrd),
                    ),
                },
            ),
            r == Ok::<MakeConfigOutcome, Error>(MakeConfigOutcome::WouldOverwrite) ==> (final(
                plan)@ == old(plan)@ && final(env).entries@ == old(env).entries@),
            final(env).source@ == old(env).source@,
            final(env).esp@ == old(env).esp@,
            final(env).spec_default() == old(env).spec_default(),
            final(env).timeout == old(env).timeout,
            final(env).esp_dir_exists == old(env).esp_dir_exists,
            final(env).entries_dir_exists == old(env).entries_dir_exists,
    {
        if !env.entries_dir_exists {
            return Err(Error::PathNotInitialized(self.esp_mountpoint.clone()));
        }
        if !force_write && env.entries.contains(self.entry.as_str()) {
            return Ok(MakeConfigOutcome::WouldOverwrite);
        }
        let has_ucode = env.esp.contains(ucode_name());
        let has_initrd = env.esp.contains(self.initrd.as_str());
        let content = self.entry_content(has_ucode, has_initrd);
        env.entries.insert(self.entry.as_str(), content.clone());
        plan.push(
            Action::WriteEntry { name: self.entry.clone(), content },
        );
        proof {
            assert(plan@.drop_last() =~= old(plan)@);
        }
        Ok(MakeConfigOutcome::Written)
    }

    /// Removes this kernel's images and entry file from the model,
    /// tolerating whatever is already absent, then clears the default
    /// pointer if and only if it named this kernel's entry; a different
    /// default is never touched.
    pub fn remove(&self, env: &mut BootEnv, plan: &mut Vec<Action>)
        requires
            old(env).wf(),
        ensures
            final(env).wf(),
            final(env).esp@ == old(env).esp@.remove(self@.vmlinuz).remove(self@.initrd),
            final(env).entries@ == old(env).entries@.remove(self@.entry),
            final(env).spec_default() == (if old(env).spec_default() == Some(self@.entry) {
                None::<Seq<char>>
            } else {
                old(env).spec_default()
            }),
            views_of(final(plan)@) == views_of(old(plan)@) + spec_remove_actions(
                old(env).esp@,
                old(env).entries@,
                old(env).spec_default(),
                self@,
            ),
            final(env).source@ == old(env).source@,
            final(env).timeout == old(env).timeout,
            final(env).esp_dir_exists == old(env).esp_dir_exists,
            final(env).entries_dir_exists == old(env).entries_dir_exists,
    {
        let ghost esp0 = env.esp@;
        let ghost entries0 = env.entries@;
        let ghost d0 = env.spec_default();
        let ghost a1 = if esp0.contains_key(self@.vmlinuz) {
            seq![ActionView::RemoveFromEsp { name: self@.vmlinuz }]
        } else {
            Seq::<ActionView>::empty()
        };
        let ghost a2 = if esp0.remove(self@.vmlinuz).contains_key(self@.initrd) {
            seq![ActionView::RemoveFromEsp { name: self@.initrd }]
        } else {
            Seq::<ActionView>::empty()
        };
        let ghost a3 = if entries0.contains_key(self@.entry) {
            seq![ActionView::RemoveEntry { name: self@.entry }]
        } else {
            Seq::<ActionView>::empty()
        };
        let ghost a4 = if d0 == Some(self@.entry) {
            seq![ActionView::SetDefault { entry: None }]
        } else {
            Seq::<ActionView>::empty()
        };
        if env.esp.contains(self.vmlinuz.as_str()) {
            env.esp.remove(self.vmlinuz.as_str());
            plan.push(Action::RemoveFromEsp { name: self.vmlinuz.clone() });
            proof {
                assert(plan@.drop_last() =~= old(plan)@);
                crate::plan::lemma_pushed_views(
                    old(plan)@,
                    plan@,
                    ActionView::RemoveFromEsp { name: self@.vmlinuz },
                );
            }
        } else {
            proof {
                assert(env.esp@ =~= env.esp@.remove(self@.vmlinuz));
            }
        }
        proof {
            assert(views_of(plan@) =~= views_of(old(plan)@) + a1);
        }
        let ghost plan1 = plan@;
        if env.esp.contains(self.initrd.as_str()) {
            env.esp.remove(self.initrd.as_str());
            plan.push(Action::RemoveFromEsp { name: self.initrd.clone() });
            proof {
                assert(plan@.drop_last() =~= plan1);
                crate::plan::lemma_pushed_views(
                    plan1,
                    plan@,
                    ActionView::RemoveFromEsp { name: self@.initrd },
                );
            }
        } else {
            proof {
                assert(env.esp@ =~= env.esp@.remove(self@.initrd));
            }
        }
        proof {
            assert(views_of(plan@) =~= views_of(old(plan)@) + a1 + a2);
        }
        let ghost plan2 = plan@;
        if env.entries.contains(self.entry.as_str()) {
            env.entries.remove(self.entry.as_str());
            plan.push(Action::RemoveEntry { name: self.entry.clone() });
            proof {
                assert(plan@.drop_last() =~= plan2);
                crate::plan::lemma_pushed_views(
                    plan2,
                    plan@,
                    ActionView::RemoveEntry { name: self@.entry },
                );
            }
        } else {
            proof {
                assert(env.entries@ =~= env.entries@.remove(self@.entry));
            }
        }
        proof {
            assert(views_of(plan@) =~= views_of(old(plan)@) + a1 + a2 + a3);
        }
        let ghost plan3 = plan@;
        self.remove_default(env, plan);
        proof {
            if d0 == Some(self@.entry) {
                crate::plan::lemma_pushed_views(
                    plan3,
                    plan@,
                    ActionView::SetDefault { entry: None },
                );
            }
            assert(views_of(plan@) =~= views_of(old(plan)@) + a1 + a2 + a3 + a4);
            assert(spec_remove_actions(esp0, entries0, d0, self@) == a1 + a2 + a3 + a4);
        }
    }

    /// Makes this kernel's entry the loader default.
    pub fn set_default(&self, env: &mut BootEnv, plan: &mut Vec<Action>)
        requires
            old(env).wf(),
        ensures
            final(env).wf(),
            final(env).spec_default() == Some(self@.entry),
            pushed(
                old(plan)@,
                final(plan)@,
                ActionView::SetDefault { entry: Some(self@.entry) },
            ),
            final(env).source@ == old(env).source@,
            final(env).esp@ == old(env).esp@,
            final(env).entries@ == old(env).entries@,
            final(env).timeout == old(env).timeout,
            final(env).esp_dir_exists == old(env).esp_dir_exists,
            final(env).entries_dir_exists == old(env).entries_dir_exists,
    {
        env.default_entry = Some(self.entry.clone());
        plan.push(Action::SetDefault { entry: Some(self.entry.clone()) });
        proof {
            assert(plan@.drop_last() =~= old(plan)@);
        }
    }

    /// Clears the default pointer if and only if it names this kernel's
    /// entry: another kernel's default is never clobbered.
    pub fn remove_default(&self, env: &mut BootEnv, plan: &mut Vec<Action>)
        requires
            old(env).wf(),
        ensures
            final(env).wf(),
            final(env).spec_default() == (if old(env).spec_default() == Some(self@.entry) {
                None::<Seq<char>>
            } else {
                old(env).spec_default()
            }),
            old(env).spec_default() == Some(self@.entry) ==> pushed(
                old(plan)@,
                final(plan)@,
                ActionView::SetDefault { entry: None },
            ),
            old(env).spec_default() != Some(self@.entry) ==> final(plan)@ == old(plan)@,
            final(env).source@ == old(env).source@,
            final(env).esp@ == old(env).esp@,
            final(env).entries@ == old(env).entries@,
            final(env).timeout == old(env).timeout,
            final(env).esp_dir_exists == old(env).esp_dir_exists,
            final(env).entries_dir_exists == old(env).entries_dir_exists,
    {
        let is_this = match &env.default_entry {
            Some(e) => crate::fsmodel::str_eq(e.as_str(), self.entry.as_str()),
            None => false,
        };
        if is_this {
            env.default_entry = None;
            plan.push(Action::SetDefault { entry: None });
            proof {
                assert(plan@.drop_last() =~= old(plan)@);
            }
        }
    }

    /// Installs the images and then writes the boot entry; when the
    /// installation fails, the entry is not written.
    pub fn install_and_make_config(
        &self,
        env: &mut BootEnv,
        plan: &mut Vec<Action>,
        force_write: bool,
    ) -> (r: Result<MakeConfigOutcome, Error>)
        requires
            old(env).wf(),
        ensures
            final(env).wf(),
            r is Ok <==> (old(env).esp_dir_exists && old(env).entries_dir_exists && old(
                env,
            ).source@.contains_key(self@.vmlinuz)),
            r is Ok ==> {
                let esp1 = spec_esp_after_install(old(env).source@, old(env).esp@, self@);
                &&& final(env).esp@ == esp1
                &&& final(env).entries@ == (if spec_config_written(
                    old(env).entries@,
                    self@,
                    force_write,
                ) {
                    old(env).entries@.insert(
                        self@.entry,
                        spec_entry_content(
                            self@,
                            old(env).source@.contains_key(spec_ucode_name()),
                            esp1.contains_key(self@.initrd),
                        ),
                    )
                } else {
                    old(env).entries@
                })
                &&& (r == Ok::<MakeConfigOutcome, Error>(MakeConfigOutcome::WouldOverwrite)
                    <==> !spec_config_written(old(env).entries@, self@, force_write))
                &&& views_of(final(plan)@) == views_of(old(plan)@) + spec_install_actions(
                    old(env).source@,
                    old(env).esp@,
                    self@,
                ) + (if spec_config_written(old(env).entries@, self@, force_write) {
                    seq![
                        ActionView::WriteEntry {
                            name: self@.entry,
                            content: spec_entry_content(
                                self@,
                                old(env).source@.contains_key(spec_ucode_name()),
                                esp1.contains_key(self@.initrd),
                            ),
                        },
                    ]
                } else {
                    Seq::<ActionView>::empty()
                })
            },
            final(env).source@ == old(env).source@,
            final(env).spec_default() == old(env).spec_default(),
            final(env).timeout == old(env).timeout,
            final(env).esp_dir_exists == old(env).esp_dir_exists,
            final(env).entries_dir_exists == old(env).entries_dir_exists,
    {
        match self.install(env, plan) {
            Ok(_) => {},
            Err(e) => {
                return Err(e);
            },
        }
        let ghost plan1 = plan@;
        let r = match self.make_config(env, plan, force_write) {
            Ok(outcome) => Ok(outcome),
            Err(e) => Err(e),
        };
        proof {
            if r == Ok::<MakeConfigOutcome, Error>(MakeConfigOutcome::Written) {
                crate::plan::lemma_pushed_views(plan1, plan@, plan@.last()@);
                assert(views_of(plan@) =~= views_of(old(plan)@) + spec_install_actions(
                    old(env).source@,
                    old(env).esp@,
                    self@,
                ) + seq![plan@.last()@]);
            } else if r is Ok {
                assert(views_of(plan@) =~= views_of(old(plan)@) + spec_install_actions(
                    old(env).source@,
                    old(env).esp@,
                    self@,
                ) + Seq::<ActionView>::empty());
            }
        }
        r
    }
}

/// One subdirectory of the module tree, with its three marker files: a
/// complete module set has a dependency index, a load order and a
/// built-in list.
pub struct ModuleDir {
    pub name: String,
    pub has_dep: bool,
    pub has_order: bool,
    pub has_builtin: bool,
}

/// Mathematical image of a module directory.
pub struct ModuleDirView {
    pub name: Seq<char>,
    pub has_dep: bool,
    pub has_order: bool,
    pub has_builtin: bool,
}

impl View for ModuleDir {
    type V = ModuleDirView;

    open spec fn view(&self) -> ModuleDirView {
        ModuleDirView {
            name: self.name@,
            has_dep: self.has_dep,
            has_order: self.has_order,
            has_builtin: self.has_builtin,
        }
    }
}

/// All three marker files are present.
pub open spec fn complete_dir(d: ModuleDirView) -> bool {
    d.has_dep && d.has_order && d.has_builtin
}

/// The images of a kernel list, in order.
pub open spec fn kviews(s: Seq<Kernel>) -> Seq<KernelView> {
    s.map_values(|k: Kernel| k@)
}

/// Newest first: every later kernel orders at or below every earlier one.
pub open spec fn sorted_desc(s: Seq<KernelView>) -> bool {
    forall|i: int, j: int|
        0 <= i < j < s.len() ==> crate::version::spec_le(
            #[trigger] s[j].version,
            #[trigger] s[i].version,
        )
}

/// The kernels that discovery accepts from the module tree, in directory
/// order: directories with a complete module set whose name parses;
/// incomplete or unparseable candidates are skipped, never an error.
pub open spec fn spec_available(c: ConfigView, ds: Seq<ModuleDirView>) -> Seq<KernelView>
    decreases ds.len(),
{
    if ds.len() == 0 {
        Seq::<KernelView>::empty()
    } else {
        spec_available(c, ds.drop_last()) + (if complete_dir(ds.last()) && spec_parse(
            ds.last().name,
        ) is Some {
            seq![spec_kernel_of(c, ds.last().name)]
        } else {
            Seq::<KernelView>::empty()
        })
    }
}

/// The kernels that discovery accepts from the ESP install directory's
/// filenames, in listing order: filenames matching the image template
/// whose recovered version part parses; others are skipped, never an
/// error.
pub open spec fn spec_installed(c: ConfigView, names: Seq<Seq<char>>) -> Seq<KernelView>
    decreases names.len(),
{
    if names.len() == 0 {
        Seq::<KernelView>::empty()
    } else {
        spec_installed(c, names.drop_last()) + ({
            let m = crate::template::spec_match_template(c.vmlinux, names.last());
            if m is Some && spec_parse(m->Some_0) is Some {
                seq![spec_kernel_of(c, m->Some_0)]
            } else {
                Seq::<KernelView>::empty()
            }
        })
    }
}

proof fn lemma_kviews_push(s: Seq<Kernel>, k: Kernel)
    ensures
        kviews(s.push(k)) == kviews(s).push(k@),
{
    assert(kviews(s.push(k)) =~= kviews(s).push(k@));
}

proof fn lemma_kviews_remove(s: Seq<Kernel>, i: int)
    requires
        0 <= i < s.len(),
    ensures
        kviews(s.remove(i)) == kviews(s).remove(i),
{
    s.remove_ensures(i);
    kviews(s).remove_ensures(i);
    assert(kviews(s.remove(i)) =~= kviews(s).remove(i));
}

/// Sorts kernels newest first; the result holds the same kernels.
pub fn sort_kernels_desc(input: Vec<Kernel>) -> (r: Vec<Kernel>)
    ensures
        kviews(r@).to_multiset() == kviews(input@).to_multiset(),
        sorted_desc(kviews(r@)),
{
    broadcast use vstd::seq_lib::group_to_multiset_ensures;
    broadcast use vstd::multiset::group_multiset_axioms;

    let ghost orig = kviews(input@);
    let mut rest = input;
    let mut out: Vec<Kernel> = Vec::new();
    loop
        invariant
            kviews(out@).to_multiset().add(kviews(rest@).to_multiset()) == orig.to_multiset(),
            sorted_desc(kviews(out@)),
            forall|i: int, j: int|
                0 <= i < out@.len() && 0 <= j < rest@.len() ==> crate::version::spec_le(
                    (#[trigger] rest@[j])@.version,
                    (#[trigger] out@[i])@.version,
                ),
        ensures
            rest@.len() == 0,
            kviews(out@).to_multiset().add(kviews(rest@).to_multiset()) == orig.to_multiset(),
            sorted_desc(kviews(out@)),
        decreases rest@.len(),
    {
        if rest.len() == 0 {
            break ;
        }
        let mut best: usize = 0;
        let mut i: usize = 1;
        while i < rest.len()
            invariant
                0 <= best < i <= rest@.len(),
                forall|k: int|
                    0 <= k < i ==> crate::version::spec_le(
                        (#[trigger] rest@[k])@.version,
                        rest@[best as int]@.version,
                    ),
            decreases rest@.len() - i,
        {
            if rest[best].version.lt(&rest[i].version) {
                let ghost old_best = best as int;
                best = i;
                proof {
                    assert forall|k: int| 0 <= k < i + 1 implies crate::version::spec_le(
                        (#[trigger] rest@[k])@.version,
                        rest@[best as int]@.version,
                    ) by {
                        crate::version::lemma_order_total(
                            rest@[k]@.version,
                            rest@[old_best]@.version,
                            rest@[best as int]@.version,
                        );
                    }
                }
            } else {
                proof {
                    assert forall|k: int| 0 <= k < i + 1 implies crate::version::spec_le(
                        (#[trigger] rest@[k])@.version,
                        rest@[best as int]@.version,
                    ) by {
                        crate::version::lemma_order_total(
                            rest@[k]@.version,
                            rest@[i as int]@.version,
                            rest@[best as int]@.version,
                        );
                    }
                }
            }
            i = i + 1;
        }
        let ghost rest0 = rest@;
        let ghost out0 = out@;
        let picked = rest.remove(best);
        proof {
            lemma_kviews_remove(rest0, best as int);
            assert(kviews(rest0)[best as int] == picked@);
            assert(kviews(rest0).contains(picked@));
        }
        out.push(picked);
        proof {
            lemma_kviews_push(out0, picked);
            kviews(out0).to_multiset_ensures();
            kviews(rest0).to_multiset_ensures();
            assert(kviews(out@) == kviews(out0).push(picked@));
            assert(kviews(rest@) == kviews(rest0).remove(best as int));
            assert(kviews(out@).to_multiset() == kviews(out0).to_multiset().insert(picked@));
            assert(kviews(rest@).to_multiset() == kviews(rest0).to_multiset().remove(picked@));
            assert(kviews(rest0).to_multiset().count(picked@) > 0);
            assert(kviews(out@).to_multiset().add(kviews(rest@).to_multiset())
                =~= orig.to_multiset());
            assert forall|a: int, b: int|
                0 <= a < b < out@.len() implies crate::version::spec_le(
                kviews(out@)[b].version,
                kviews(out@)[a].version,
            ) by {
                if b < out0.len() {
                    assert(out@[a] == out0[a] && out@[b] == out0[b]);
                } else {
                    assert(out@[b] == picked);
                    assert(out@[a] == out0[a]);
                }
            }
            assert forall|a: int, j: int|
                0 <= a < out@.len() && 0 <= j < rest@.len() implies crate::version::spec_le(
                (#[trigger] rest@[j])@.version,
                (#[trigger] out@[a])@.version,
            ) by {
                rest0.remove_ensures(best as int);
                let jj = if j < best as int {
                    j
                } else {
                    j + 1
                };
                assert(rest@[j] == rest0[jj]);
                if a < out0.len() {
                    assert(out@[a] == out0[a]);
                } else {
                    assert(out@[a] == picked);
                    crate::version::lemma_order_total(
                        rest@[j]@.version,
                        rest0[best as int]@.version,
                        picked@.version,
                    );
                }
            }
        }
    }
    proof {
        assert(kviews(rest@).to_multiset() =~= Multiset::<KernelView>::empty());
        assert(kviews(out@).to_multiset() =~= orig.to_multiset());
    }
    out
}

impl Kernel {
    /// Discovers the available kernels from the module tree listing:
    /// accepts each complete, parseable candidate and returns them sorted
    /// newest first. A skipped candidate never aborts discovery.
    pub fn list(config: &Config, modules: &Vec<ModuleDir>) -> (r: Vec<Kernel>)
        ensures
            kviews(r@).to_multiset() == spec_available(
                config@,
                modules@.map_values(|d: ModuleDir| d@),
            ).to_multiset(),
            sorted_desc(kviews(r@)),
    {
        let ghost dviews = modules@.map_values(|d: ModuleDir| d@);
        let n = modules.len();
        let mut found: Vec<Kernel> = Vec::new();
        let mut i: usize = 0;
        while i < n
            invariant
                0 <= i <= n,
                n == modules@.len(),
                dviews == modules@.map_values(|d: ModuleDir| d@),
                kviews(found@) == spec_available(config@, dviews.subrange(0, i as int)),
            decreases n - i,
        {
            let ghost pre = dviews.subrange(0, i as int);
            let ghost pre1 = dviews.subrange(0, i + 1);
            proof {
                assert(pre1.drop_last() =~= pre);
                assert(pre1.last() == dviews[i as int]);
            }
            let d = &modules[i];
            if d.has_dep && d.has_order && d.has_builtin {
                match Kernel::parse(config, d.name.as_str()) {
                    Ok(k) => {
                        let ghost found0 = found@;
                        proof {
                            lemma_kviews_push(found0, k);
                        }
                        found.push(k);
                        proof {
                            assert(kviews(found@) =~= spec_available(config@, pre1));
                        }
                    },
                    Err(_) => {
                        proof {
                            assert(kviews(found@) =~= spec_available(config@, pre1));
                        }
                    },
                }
            } else {
                proof {
                    assert(kviews(found@) =~= spec_available(config@, pre1));
                }
            }
            i = i + 1;
        }
        proof {
            assert(dviews.subrange(0, n as int) =~= dviews);
        }
        sort_kernels_desc(found)
    }

    /// Discovers the installed kernels from the filenames found in the
    /// ESP install directory, matching them against the image template
    /// and recovering the version part; sorted newest first. A skipped
    /// filename never aborts discovery.
    pub fn list_installed(config: &Config, files: &Vec<String>) -> (r: Vec<Kernel>)
        ensures
            kviews(r@).to_multiset() == spec_installed(
                config@,
                files@.map_values(|s: String| s@),
            ).to_multiset(),
            sorted_desc(kviews(r@)),
    {
        let ghost nviews = files@.map_values(|s: String| s@);
        let n = files.len();
        let mut found: Vec<Kernel> = Vec::new();
        let mut i: usize = 0;
        while i < n
            invariant
                0 <= i <= n,
                n == files@.len(),
                nviews == files@.map_values(|s: String| s@),
                kviews(found@) == spec_installed(config@, nviews.subrange(0, i as int)),
            decreases n - i,
        {
            let ghost pre = nviews.subrange(0, i as int);
            let ghost pre1 = nviews.subrange(0, i + 1);
            proof {
                assert(pre1.drop_last() =~= pre);
                assert(pre1.last() == nviews[i as int]);
            }
            match crate::template::match_template(config.vmlinux.as_str(), files[i].as_str()) {
                Some(version_part) => {
                    match Kernel::parse(config, version_part.as_str()) {
                        Ok(k) => {
                            let ghost found0 = found@;
                            proof {
                                lemma_kviews_push(found0, k);
                            }
                            found.push(k);
                            proof {
                                assert(kviews(found@) =~= spec_installed(config@, pre1));
                            }
                        },
                        Err(_) => {
                            proof {
                                assert(kviews(found@) =~= spec_installed(config@, pre1));
                            }
                        },
                    }
                },
                None => {
                    proof {
                        assert(kviews(found@) =~= spec_installed(config@, pre1));
                    }
                },
            }
            i = i + 1;
        }
        proof {
            assert(nviews.subrange(0, n as int) =~= nviews);
        }
        sort_kernels_desc(found)
    }
}

} // verus!
