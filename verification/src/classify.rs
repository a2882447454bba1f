//! Signal classification: a raw signal name plus its alternate-function
//! selector string yields zero or more typed capabilities. Each of the
//! recognized peripheral roles is an exact pattern on the whole signal
//! name; a selector contributes its AF number as the second
//! underscore-delimited token, written `AF<n>`.

use vstd::prelude::*;
use vstd::string::StrSliceExecFns;
use vstd::string::StringExecFns;
use crate::strutil::is_digit;
use crate::strutil::all_digits;
use crate::strutil::dec_value;
use crate::strutil::dec_string;
use crate::strutil::split_char;
use crate::strutil::split_underscore;
use crate::strutil::seq_views;
use crate::strutil::chars_of;
use crate::strutil::spec_parse_digits;
use crate::strutil::parse_u32;
use crate::strutil::u32_to_dec;
use crate::strutil::lemma_split_len;

verus! {

/// A recognized peripheral role.
#[derive(Clone, Copy, Debug, PartialEq, Eq, Structural)]
pub enum Role {
    UsartRx,
    UsartTx,
    SpiMosi,
    SpiMiso,
    SpiSck,
    I2cScl,
    I2cSda,
}

/// Mathematical image of a [`Capability`].
#[verifier::ext_equal]
pub struct CapView {
    pub af: nat,
    pub role: Role,
    pub instance: Seq<char>,
}

/// One capability of a pin: the alternate-function number, the recognized
/// role, and the peripheral instance name the signal belongs to.
#[derive(Debug)]
pub struct Capability {
    pub af: u32,
    pub role: Role,
    pub instance: String,
}

impl View for Capability {
    type V = CapView;

    open spec fn view(&self) -> CapView {
        CapView { af: self.af as nat, role: self.role, instance: self.instance@ }
    }
}

/// The views of a sequence of capabilities.
pub open spec fn cap_views(s: Seq<Capability>) -> Seq<CapView> {
    Seq::new(s.len(), |i: int| s[i]@)
}

/// A USART-style instance name without the low-power prefix:
/// `U`, optional `S`, `ART`, one digit.
pub open spec fn usart_core(s: Seq<char>) -> bool {
    ||| (s.len() == 5 && s[0] == 'U' && s[1] == 'A' && s[2] == 'R' && s[3] == 'T' && is_digit(
        s[4],
    ))
    ||| (s.len() == 6 && s[0] == 'U' && s[1] == 'S' && s[2] == 'A' && s[3] == 'R' && s[4] == 'T'
        && is_digit(s[5]))
}

/// A UART/USART instance name, tolerating an optional `LP` prefix.
pub open spec fn usart_instance(s: Seq<char>) -> bool {
    usart_core(s) || (s.len() >= 2 && s[0] == 'L' && s[1] == 'P' && usart_core(s.skip(2)))
}

/// An SPI instance name: `SPI` and one digit.
pub open spec fn spi_instance(s: Seq<char>) -> bool {
    s.len() == 4 && s[0] == 'S' && s[1] == 'P' && s[2] == 'I' && is_digit(s[3])
}

/// An I2C instance name: `I2C` and one digit.
pub open spec fn i2c_instance(s: Seq<char>) -> bool {
    s.len() == 4 && s[0] == 'I' && s[1] == '2' && s[2] == 'C' && is_digit(s[3])
}

/// The signal-name suffix that marks a role.
pub open spec fn role_suffix(r: Role) -> Seq<char> {
    match r {
        Role::UsartRx => seq!['_', 'R', 'X'],
        Role::UsartTx => seq!['_', 'T', 'X'],
        Role::SpiMosi => seq!['_', 'M', 'O', 'S', 'I'],
        Role::SpiMiso => seq!['_', 'M', 'I', 'S', 'O'],
        Role::SpiSck => seq!['_', 'S', 'C', 'K'],
        Role::I2cScl => seq!['_', 'S', 'C', 'L'],
        Role::I2cSda => seq!['_', 'S', 'D', 'A'],
    }
}

/// The instance-name shape demanded by a role.
pub open spec fn role_head(r: Role, s: Seq<char>) -> bool {
    match r {
        Role::UsartRx => usart_instance(s),
        Role::UsartTx => usart_instance(s),
        Role::SpiMosi => spi_instance(s),
        Role::SpiMiso => spi_instance(s),
        Role::SpiSck => spi_instance(s),
        Role::I2cScl => i2c_instance(s),
        Role::I2cSda => i2c_instance(s),
    }
}

/// Whether a signal name matches a role: the matching instance name
/// followed by the role's suffix.
pub open spec fn role_matches(r: Role, name: Seq<char>) -> bool {
    let suf = role_suffix(r);
    &&& name.len() > suf.len()
    &&& name.skip(name.len() - suf.len()) == suf
    &&& role_head(r, name.take(name.len() - suf.len()))
}

/// `seq![r]` where the role matches, empty otherwise.
pub open spec fn maybe_role(r: Role, name: Seq<char>) -> Seq<Role> {
    if role_matches(r, name) {
        seq![r]
    } else {
        Seq::empty()
    }
}

/// All roles a signal name matches, in the fixed role order.
pub open spec fn role_seq(name: Seq<char>) -> Seq<Role> {
    maybe_role(Role::UsartRx, name) + maybe_role(Role::UsartTx, name) + maybe_role(
        Role::SpiMosi,
        name,
    ) + maybe_role(Role::SpiMiso, name) + maybe_role(Role::SpiSck, name) + maybe_role(
        Role::I2cScl,
        name,
    ) + maybe_role(Role::I2cSda, name)
}

/// The peripheral instance name of a signal: everything before the first
/// underscore.
pub open spec fn spec_instance_name(name: Seq<char>) -> Seq<char> {
    split_char(name, '_')[0]
}

/// The AF number of a selector string: the second underscore-delimited
/// token must be `AF` followed by decimal digits; a selector with fewer
/// than two tokens, or a token of any other shape, yields none.
pub open spec fn spec_af_number(sel: Seq<char>) -> Option<u32> {
    let toks = split_char(sel, '_');
    if toks.len() < 2 {
        None
    } else {
        let t = toks[1];
        if t.len() > 2 && t[0] == 'A' && t[1] == 'F' && all_digits(t.skip(2)) && dec_value(
            t.skip(2),
        ) <= u32::MAX {
            Some(dec_value(t.skip(2)) as u32)
        } else {
            None
        }
    }
}

/// The classification of one signal: with a well-formed selector, one
/// capability per matching role, all carrying the selector's AF number and
/// the signal's instance name; with a malformed selector, none.
pub open spec fn spec_classify(name: Seq<char>, sel: Seq<char>) -> Seq<CapView> {
    match spec_af_number(sel) {
        Option::None => Seq::empty(),
        Option::Some(n) => {
            let roles = role_seq(name);
            Seq::new(
                roles.len(),
                |i: int| CapView { af: n as nat, role: roles[i], instance: spec_instance_name(name) },
            )
        },
    }
}

fn is_usart_inst(cs: &Vec<char>, end: usize) -> (r: bool)
    requires
        end <= cs@.len(),
    ensures
        r == usart_instance(cs@.take(end as int)),
{
    let ghost s = cs@.take(end as int);
    let core = is_usart_core(cs, 0, end);
    if core {
        return true;
    }
    if end >= 2 && cs[0] == 'L' && cs[1] == 'P' {
        let lp = is_usart_core(cs, 2, end);
        assert(cs@.subrange(2, end as int) =~= s.skip(2));
        lp
    } else {
        false
    }
}

fn is_usart_core(cs: &Vec<char>, from: usize, end: usize) -> (r: bool)
    requires
        from <= end <= cs@.len(),
    ensures
        r == usart_core(cs@.subrange(from as int, end as int)),
{
    let ghost s = cs@.subrange(from as int, end as int);
    if end - from == 5 {
        cs[from] == 'U' && cs[from + 1] == 'A' && cs[from + 2] == 'R' && cs[from + 3] == 'T' && '0'
            <= cs[from + 4] && cs[from + 4] <= '9'
    } else if end - from == 6 {
        cs[from] == 'U' && cs[from + 1] == 'S' && cs[from + 2] == 'A' && cs[from + 3] == 'R'
            && cs[from + 4] == 'T' && '0' <= cs[from + 5] && cs[from + 5] <= '9'
    } else {
        false
    }
}

fn is_spi_inst(cs: &Vec<char>, end: usize) -> (r: bool)
    requires
        end <= cs@.len(),
    ensures
        r == spi_instance(cs@.take(end as int)),
{
    end == 4 && cs[0] == 'S' && cs[1] == 'P' && cs[2] == 'I' && '0' <= cs[3] && cs[3] <= '9'
}

fn is_i2c_inst(cs: &Vec<char>, end: usize) -> (r: bool)
    requires
        end <= cs@.len(),
    ensures
        r == i2c_instance(cs@.take(end as int)),
{
    end == 4 && cs[0] == 'I' && cs[1] == '2' && cs[2] == 'C' && '0' <= cs[3] && cs[3] <= '9'
}

/// Whether a signal name matches one role, decided over its characters.
fn role_matches_exec(r: Role, cs: &Vec<char>) -> (m: bool)
    ensures
        m == role_matches(r, cs@),
{
    let n = cs.len();
    let ghost suf = role_suffix(r);
    match r {
        Role::UsartRx => {
            if n > 3 && cs[n - 3] == '_' && cs[n - 2] == 'R' && cs[n - 1] == 'X' {
                assert(cs@.skip(n - 3) =~= suf);
                is_usart_inst(cs, n - 3)
            } else {
                assert(n > 3 ==> cs@.skip(n - 3) != suf) by {
                    if n > 3 && cs@.skip(n - 3) == suf {
                        assert(cs@[n - 3] == suf[0] && cs@[n - 2] == suf[1] && cs@[n - 1]
                            == suf[2]);
                    }
                }
                false
            }
        },
        Role::UsartTx => {
            if n > 3 && cs[n - 3] == '_' && cs[n - 2] == 'T' && cs[n - 1] == 'X' {
                assert(cs@.skip(n - 3) =~= suf);
                is_usart_inst(cs, n - 3)
            } else {
                assert(n > 3 ==> cs@.skip(n - 3) != suf) by {
                    if n > 3 && cs@.skip(n - 3) == suf {
                        assert(cs@[n - 3] == suf[0] && cs@[n - 2] == suf[1] && cs@[n - 1]
                            == suf[2]);
                    }
                }
                false
            }
        },
        Role::SpiMosi => {
            if n > 5 && cs[n - 5] == '_' && cs[n - 4] == 'M' && cs[n - 3] == 'O' && cs[n - 2] == 'S'
                && cs[n - 1] == 'I' {
                assert(cs@.skip(n - 5) =~= suf);
                is_spi_inst(cs, n - 5)
            } else {
                assert(n > 5 ==> cs@.skip(n - 5) != suf) by {
                    if n > 5 && cs@.skip(n - 5) == suf {
                        assert(cs@[n - 5] == suf[0] && cs@[n - 4] == suf[1] && cs@[n - 3] == suf[2]
                            && cs@[n - 2] == suf[3] && cs@[n - 1] == suf[4]);
                    }
                }
                false
            }
        },
        Role::SpiMiso => {
            if n > 5 && cs[n - 5] == '_' && cs[n - 4] == 'M' && cs[n - 3] == 'I' && cs[n - 2] == 'S'
                && cs[n - 1] == 'O' {
                assert(cs@.skip(n - 5) =~= suf);
                is_spi_inst(cs, n - 5)
            } else {
                assert(n > 5 ==> cs@.skip(n - 5) != suf) by {
                    if n > 5 && cs@.skip(n - 5) == suf {
                        assert(cs@[n - 5] == suf[0] && cs@[n - 4] == suf[1] && cs@[n - 3] == suf[2]
                            && cs@[n - 2] == suf[3] && cs@[n - 1] == suf[4]);
                    }
                }
                false
            }
        },
        Role::SpiSck => {
            if n > 4 && cs[n - 4] == '_' && cs[n - 3] == 'S' && cs[n - 2] == 'C' && cs[n - 1]
                == 'K' {
                assert(cs@.skip(n - 4) =~= suf);
                is_spi_inst(cs, n - 4)
            } else {
                assert(n > 4 ==> cs@.skip(n - 4) != suf) by {
                    if n > 4 && cs@.skip(n - 4) == suf {
                        assert(cs@[n - 4] == suf[0] && cs@[n - 3] == suf[1] && cs@[n - 2] == suf[2]
                            && cs@[n - 1] == suf[3]);
                    }
                }
                false
            }
        },
        Role::I2cScl => {
            if n > 4 && cs[n - 4] == '_' && cs[n - 3] == 'S' && cs[n - 2] == 'C' && cs[n - 1]
                == 'L' {
                assert(cs@.skip(n - 4) =~= suf);
                is_i2c_inst(cs, n - 4)
            } else {
                assert(n > 4 ==> cs@.skip(n - 4) != suf) by {
                    if n > 4 && cs@.skip(n - 4) == suf {
                        assert(cs@[n - 4] == suf[0] && cs@[n - 3] == suf[1] && cs@[n - 2] == suf[2]
                            && cs@[n - 1] == suf[3]);
                    }
                }
                false
            }
        },
        Role::I2cSda => {
            if n > 4 && cs[n - 4] == '_' && cs[n - 3] == 'S' && cs[n - 2] == 'D' && cs[n - 1]
                == 'A' {
                assert(cs@.skip(n - 4) =~= suf);
                is_i2c_inst(cs, n - 4)
            } else {
                assert(n > 4 ==> cs@.skip(n - 4) != suf) by {
                    if n > 4 && cs@.skip(n - 4) == suf {
                        assert(cs@[n - 4] == suf[0] && cs@[n - 3] == suf[1] && cs@[n - 2] == suf[2]
                            && cs@[n - 1] == suf[3]);
                    }
                }
                false
            }
        },
    }
}

/// All roles a signal name matches.
fn roles_of(name: &str) -> (r: Vec<Role>)
    ensures
        r@ == role_seq(name@),
{
    let cs = chars_of(name);
    let mut r: Vec<Role> = Vec::new();
    if role_matches_exec(Role::UsartRx, &cs) {
        r.push(Role::UsartRx);
    }
    assert(r@ =~= maybe_role(Role::UsartRx, name@));
    if role_matches_exec(Role::UsartTx, &cs) {
        r.push(Role::UsartTx);
    }
    assert(r@ =~= maybe_role(Role::UsartRx, name@) + maybe_role(Role::UsartTx, name@));
    if role_matches_exec(Role::SpiMosi, &cs) {
        r.push(Role::SpiMosi);
    }
    assert(r@ =~= maybe_role(Role::UsartRx, name@) + maybe_role(Role::UsartTx, name@) + maybe_role(
        Role::SpiMosi,
        name@,
    ));
    if role_matches_exec(Role::SpiMiso, &cs) {
        r.push(Role::SpiMiso);
    }
    assert(r@ =~= maybe_role(Role::UsartRx, name@) + maybe_role(Role::UsartTx, name@) + maybe_role(
        Role::SpiMosi,
        name@,
    ) + maybe_role(Role::SpiMiso, name@));
    if role_matches_exec(Role::SpiSck, &cs) {
        r.push(Role::SpiSck);
    }
    assert(r@ =~= maybe_role(Role::UsartRx, name@) + maybe_role(Role::UsartTx, name@) + maybe_role(
        Role::SpiMosi,
        name@,
    ) + maybe_role(Role::SpiMiso, name@) + maybe_role(Role::SpiSck, name@));
    if role_matches_exec(Role::I2cScl, &cs) {
        r.push(Role::I2cScl);
    }
    assert(r@ =~= maybe_role(Role::UsartRx, name@) + maybe_role(Role::UsartTx, name@) + maybe_role(
        Role::SpiMosi,
        name@,
    ) + maybe_role(Role::SpiMiso, name@) + maybe_role(Role::SpiSck, name@) + maybe_role(
        Role::I2cScl,
        name@,
    ));
    if role_matches_exec(Role::I2cSda, &cs) {
        r.push(Role::I2cSda);
    }
    assert(r@ =~= role_seq(name@));
    r
}

/// The AF number of a selector string, as [`spec_af_number`] states it.
pub fn af_number(selector: &str) -> (r: Option<u32>)
    ensures
        r == spec_af_number(selector@),
{
    let toks = split_underscore(selector);
    proof {
        assert(seq_views(toks@) == split_char(selector@, '_'));
    }
    if toks.len() < 2 {
        return None;
    }
    let t = &toks[1];
    let ghost tv = split_char(selector@, '_')[1];
    assert(t@ == tv);
    let cs = chars_of(t.as_str());
    let n = cs.len();
    if n <= 2 || !(cs[0] == 'A' && cs[1] == 'F') {
        return None;
    }
    let digits = t.as_str().substring_char(2, n);
    assert(digits@ =~= tv.skip(2));
    let parsed = parse_u32(digits);
    if cs[2] == '+' {
        assert(!is_digit(tv.skip(2)[0]));
        return None;
    }
    proof {
        assert(spec_parse_digits(digits@) == digits@);
    }
    parsed
}

/// The peripheral instance name of a signal.
pub fn instance_name(signal_name: &str) -> (r: String)
    ensures
        r@ == spec_instance_name(signal_name@),
{
    let toks = split_underscore(signal_name);
    proof {
        lemma_split_len(signal_name@, '_');
        assert(seq_views(toks@)[0] == split_char(signal_name@, '_')[0]);
    }
    let mut toks = toks;
    let first = toks.remove(0);
    first
}

/// Classify one signal: each role pattern the name matches contributes a
/// capability with the selector's AF number; a selector without a
/// well-formed AF token contributes nothing.
pub fn classify(signal_name: &str, selector: &str) -> (r: Vec<Capability>)
    ensures
        cap_views(r@) == spec_classify(signal_name@, selector@),
{
    let af = af_number(selector);
    match af {
        None => {
            let r: Vec<Capability> = Vec::new();
            assert(cap_views(r@) =~~= spec_classify(signal_name@, selector@));
            r
        },
        Some(n) => {
            let roles = roles_of(signal_name);
            let inst = instance_name(signal_name);
            let mut r: Vec<Capability> = Vec::new();
            let mut i: usize = 0;
            while i < roles.len()
                invariant
                    i <= roles@.len(),
                    roles@ == role_seq(signal_name@),
                    inst@ == spec_instance_name(signal_name@),
                    r@.len() == i,
                    forall|k: int|
                        0 <= k < i ==> (#[trigger] r@[k]).af == n && r@[k].role == role_seq(
                            signal_name@,
                        )[k] && r@[k].instance@ == spec_instance_name(signal_name@),
                decreases roles@.len() - i,
            {
                r.push(Capability { af: n, role: roles[i], instance: inst.clone() });
                i = i + 1;
            }
            assert(cap_views(r@) =~~= spec_classify(signal_name@, selector@));
            r
        },
    }
}

/// The trait name under which a role is rendered.
pub open spec fn role_trait(r: Role) -> Seq<char> {
    match r {
        Role::UsartRx => "RxPin"@,
        Role::UsartTx => "TxPin"@,
        Role::SpiMosi => "MosiPin"@,
        Role::SpiMiso => "MisoPin"@,
        Role::SpiSck => "SckPin"@,
        Role::I2cScl => "SclPin"@,
        Role::I2cSda => "SdaPin"@,
    }
}

/// The rendered text of one capability:
/// `<af number>: <role trait name><instance name>`.
pub open spec fn cap_text(c: CapView) -> Seq<char> {
    dec_string(c.af) + ": "@ + role_trait(c.role) + c.instance
}

fn role_trait_str(r: Role) -> (s: &'static str)
    ensures
        s@ == role_trait(r),
{
    match r {
        Role::UsartRx => "RxPin",
        Role::UsartTx => "TxPin",
        Role::SpiMosi => "MosiPin",
        Role::SpiMiso => "MisoPin",
        Role::SpiSck => "SckPin",
        Role::I2cScl => "SclPin",
        Role::I2cSda => "SdaPin",
    }
}

/// Render one capability as generated-table text.
pub fn render_capability(c: &Capability) -> (r: String)
    ensures
        r@ == cap_text(c@),
{
    let mut s = u32_to_dec(c.af);
    s.append(": ");
    s.append(role_trait_str(c.role));
    s.append(c.instance.as_str());
    s
}

/// For every selector whose second underscore-delimited token names an AF
/// number, every capability the classifier yields carries exactly that
/// number; a selector with fewer than two tokens yields no capability at
/// all, whatever the signal name.
pub proof fn lemma_classify_af(name: Seq<char>, sel: Seq<char>)
    ensures
        forall|i: int|
            0 <= i < spec_classify(name, sel).len() ==> spec_af_number(sel) == Some(
                (#[trigger] spec_classify(name, sel)[i]).af as u32,
            ) && spec_classify(name, sel)[i].af <= u32::MAX,
        split_char(sel, '_').len() < 2 ==> spec_classify(name, sel) =~= Seq::<CapView>::empty(),
{
}

/// A signal name that matches none of the role patterns yields no
/// capability, whatever its selector says.
pub proof fn lemma_classify_no_role(name: Seq<char>, sel: Seq<char>)
    requires
        forall|r: Role| !role_matches(r, name),
    ensures
        spec_classify(name, sel).len() == 0,
{
    assert(!role_matches(Role::UsartRx, name));
    assert(!role_matches(Role::UsartTx, name));
    assert(!role_matches(Role::SpiMosi, name));
    assert(!role_matches(Role::SpiMiso, name));
    assert(!role_matches(Role::SpiSck, name));
    assert(!role_matches(Role::I2cScl, name));
    assert(!role_matches(Role::I2cSda, name));
}

} // verus!
