# infraweave

The logic of a GitOps platform for Terraform modules and stacks, verified with Verus:
naming rules and validation of modules, stacks and their claims; the references between the
claims of a stack and the Terraform root module generated for it; the merging of provider
configurations; GitHub webhook signatures, push and package events; and the decisions around
publishing, deprecating and deploying versions.

Layout:

- `src/` is the verified library. Each module states its behaviour over spec functions
  (`Seq<char>` for text, views of the library's types) in `requires`/`ensures`; the `law_*`
  proof functions (`laws.rs`, `merge_laws.rs`, `stack_laws.rs`, `textgen.rs`) state what holds
  across calls. Calls into outside crates (`hmac`, `sha2`, `hex`, `subtle`, `regex`, `semver`,
  `serde_json` with `hcl-rs`) go through small `#[verifier::external_body]` wrappers whose
  contracts are trusted. `hcl_code.rs` reads and writes Terraform text with `hcl-rs`: what it
  reads and writes are named (`hcl_blocks`, `hcl_text`) over the library's own model of blocks
  and expressions; `module_code.rs` and `stack_publish.rs` build the root modules of modules and
  stacks from Terraform texts, stated exactly over those names and the collected code, and `module_publish.rs` makes
  the checks of publishing modules and providers in order and builds their records.
- `tests/` runs the library on concrete inputs.
- `app/` is a thin command line around the library: git, files, standard input and output.
