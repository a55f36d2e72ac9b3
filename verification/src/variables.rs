//! Variable expansion in configuration values: `$CWD`, `$PARENT` and `$HOME`
//! in any string field expand to the working directory, its basename and the
//! user's home directory. The library receives those three values from the
//! caller and performs the substitutions.

use vstd::prelude::*;
use crate::config::ProxyConfigToml;
use crate::search::{replace_seq, replace_all};
use crate::text::{ascii_bytes, concat_bytes, str_bytes};

verus! {

/// One optional field after expansion: present exactly when it was present,
/// with every `var` replaced by `val`.
pub open spec fn opt_replaced(
    newf: Option<Vec<u8>>,
    oldf: Option<Vec<u8>>,
    var: Seq<u8>,
    val: Seq<u8>,
) -> bool {
    match oldf {
        None => newf is None,
        Some(o) => newf matches Some(n) && n@ == replace_seq(o@, var, val),
    }
}

/// The whole configuration after expansion of one variable: the five string
/// fields rewritten, the rest untouched.
pub open spec fn expand_config_spec(
    oldc: ProxyConfigToml,
    newc: ProxyConfigToml,
    var: Seq<u8>,
    val: Seq<u8>,
) -> bool {
    &&& opt_replaced(newc.container, oldc.container, var, val)
    &&& opt_replaced(newc.local_path, oldc.local_path, var, val)
    &&& opt_replaced(newc.executable, oldc.executable, var, val)
    &&& opt_replaced(newc.docker_internal_path, oldc.docker_internal_path, var, val)
    &&& opt_replaced(newc.pattern, oldc.pattern, var, val)
    &&& newc.patch_pid == oldc.patch_pid
    &&& newc.log_level == oldc.log_level
}

/// A resolver knows one variable name and the value it stands for, and
/// expands `$<name>` throughout a configuration.
pub trait VariableResolver {
    /// The variable name, without the leading `$`.
    spec fn var_name(&self) -> Seq<u8>;

    /// The value the variable expands to.
    spec fn var_value(&self) -> Seq<u8>;

    /// Expand `$<name>` to the value in every string field.
    fn expand(&self, config: ProxyConfigToml) -> (r: ProxyConfigToml)
        ensures
            expand_config_spec(config, r, seq![36u8] + self.var_name(), self.var_value()),
    ;
}

/// Base for resolvers: a variable name and its expansion value.
pub struct Variable {
    name: Vec<u8>,
    value: Vec<u8>,
}

impl Variable {
    /// A variable called `name` standing for `value`.
    pub fn new(name: Vec<u8>, value: Vec<u8>) -> (r: Variable)
        ensures
            r.spec_name() == name@,
            r.spec_value() == value@,
    {
        Variable { name, value }
    }

    /// The variable's name, without the leading `$`.
    pub fn name(&self) -> (r: &Vec<u8>)
        ensures
            r@ == self.spec_name(),
    {
        &self.name
    }

    /// The value the variable expands to.
    pub fn value(&self) -> (r: &Vec<u8>)
        ensures
            r@ == self.spec_value(),
    {
        &self.value
    }

    /// The name's spec-level view.
    pub closed spec fn spec_name(&self) -> Seq<u8> {
        self.name@
    }

    /// The value's spec-level view.
    pub closed spec fn spec_value(&self) -> Seq<u8> {
        self.value@
    }
}

/// One optional field with `var` replaced by `expanded`.
fn replace_opt(f: Option<Vec<u8>>, var: &[u8], expanded: &[u8]) -> (r: Option<Vec<u8>>)
    requires
        var@.len() > 0,
    ensures
        opt_replaced(r, f, var@, expanded@),
{
    match f {
        None => None,
        Some(v) => Some(replace_all(v.as_slice(), var, expanded)),
    }
}

/// Replace `var` (already carrying its `$`) by `expanded` in every string
/// field of the configuration.
pub fn expand_into_config(config: ProxyConfigToml, var: &[u8], expanded: &[u8]) -> (r:
    ProxyConfigToml)
    requires
        var@.len() > 0,
    ensures
        expand_config_spec(config, r, var@, expanded@),
{
    ProxyConfigToml {
        container: replace_opt(config.container, var, expanded),
        local_path: replace_opt(config.local_path, var, expanded),
        docker_internal_path: replace_opt(config.docker_internal_path, var, expanded),
        executable: replace_opt(config.executable, var, expanded),
        pattern: replace_opt(config.pattern, var, expanded),
        patch_pid: config.patch_pid,
        log_level: config.log_level,
    }
}

fn expand_with(v: &Variable, config: ProxyConfigToml) -> (r: ProxyConfigToml)
    ensures
        expand_config_spec(config, r, seq![36u8] + v.spec_name(), v.spec_value()),
{
    proof {
        reveal_strlit("$");
        assert(ascii_bytes("$"@) =~= seq![36u8]);
    }
    let var = concat_bytes(str_bytes("$").as_slice(), v.name().as_slice());
    expand_into_config(config, var.as_slice(), v.value().as_slice())
}

/// The working-directory variable `$CWD`.
pub struct VariableCwd(pub Variable);

impl VariableCwd {
    /// Resolver for `$CWD`, standing for the given working directory.
    pub fn new(cwd: Vec<u8>) -> (r: VariableCwd)
        ensures
            r.var_name() == ascii_bytes("CWD"@),
            r.var_value() == cwd@,
    {
        proof {
            reveal_strlit("CWD");
        }
        VariableCwd(Variable::new(str_bytes("CWD"), cwd))
    }
}

impl VariableResolver for VariableCwd {
    open spec fn var_name(&self) -> Seq<u8> {
        self.0.spec_name()
    }

    open spec fn var_value(&self) -> Seq<u8> {
        self.0.spec_value()
    }

    fn expand(&self, config: ProxyConfigToml) -> (r: ProxyConfigToml) {
        expand_with(&self.0, config)
    }
}

/// The directory-basename variable `$PARENT`.
pub struct VariableParent(pub Variable);

impl VariableParent {
    /// Resolver for `$PARENT`, standing for the working directory's basename.
    pub fn new(parent: Vec<u8>) -> (r: VariableParent)
        ensures
            r.var_name() == ascii_bytes("PARENT"@),
            r.var_value() == parent@,
    {
        proof {
            reveal_strlit("PARENT");
        }
        VariableParent(Variable::new(str_bytes("PARENT"), parent))
    }
}

impl VariableResolver for VariableParent {
    open spec fn var_name(&self) -> Seq<u8> {
        self.0.spec_name()
    }

    open spec fn var_value(&self) -> Seq<u8> {
        self.0.spec_value()
    }

    fn expand(&self, config: ProxyConfigToml) -> (r: ProxyConfigToml) {
        expand_with(&self.0, config)
    }
}

/// The home-directory variable `$HOME`.
pub struct VariableHome(pub Variable);

impl VariableHome {
    /// Resolver for `$HOME`, standing for the user's home directory.
    pub fn new(home: Vec<u8>) -> (r: VariableHome)
        ensures
            r.var_name() == ascii_bytes("HOME"@),
            r.var_value() == home@,
    {
        proof {
            reveal_strlit("HOME");
        }
        VariableHome(Variable::new(str_bytes("HOME"), home))
    }
}

impl VariableResolver for VariableHome {
    open spec fn var_name(&self) -> Seq<u8> {
        self.0.spec_name()
    }

    open spec fn var_value(&self) -> Seq<u8> {
        self.0.spec_value()
    }

    fn expand(&self, config: ProxyConfigToml) -> (r: ProxyConfigToml) {
        expand_with(&self.0, config)
    }
}

} // verus!
