//! Lines of text, taken as sequences of characters: trimming, splitting
//! into fields, and reading decimal numbers.

use vstd::prelude::*;

verus! {

/// Whether `c` is white space, as `char::is_whitespace` tells it: the
/// characters with Unicode's property `White_Space`.
pub uninterp spec fn branco(c: char) -> bool;

/// `char::is_whitespace`. Which characters count is left to the name
/// `branco`; the contract only ties the answer to it.
#[verifier::external_body]
pub(crate) fn eh_branco(c: char) -> (resposta: bool)
    ensures
        resposta == branco(c),
{
    c.is_whitespace()
}

/// How many white-space characters `s` starts with.
pub open spec fn brancos_no_inicio(s: Seq<char>) -> nat
    decreases s.len(),
{
    if s.len() > 0 && branco(s[0]) {
        1 + brancos_no_inicio(s.drop_first())
    } else {
        0
    }
}

/// How many white-space characters `s` ends with.
pub open spec fn brancos_no_fim(s: Seq<char>) -> nat
    decreases s.len(),
{
    if s.len() > 0 && branco(s.last()) {
        1 + brancos_no_fim(s.drop_last())
    } else {
        0
    }
}

/// `s` without the white space it starts and ends with.
pub open spec fn aparada(s: Seq<char>) -> Seq<char> {
    let resto = s.skip(brancos_no_inicio(s) as int);
    resto.take(resto.len() - brancos_no_fim(resto))
}

/// How many characters come before the first space of `s`, or the length of
/// `s` if it has no space.
pub open spec fn ate_espaco(s: Seq<char>) -> nat
    decreases s.len(),
{
    if s.len() == 0 || s[0] == ' ' {
        0
    } else {
        1 + ate_espaco(s.drop_first())
    }
}

/// The fields of `s`: the stretches between one space and the next. Every
/// space ends a field, so two spaces in a row enclose an empty field, and
/// there is always at least one field.
pub open spec fn campos_de(s: Seq<char>) -> Seq<Seq<char>>
    decreases s.len(),
{
    let p = ate_espaco(s) as int;
    if p >= s.len() {
        seq![s]
    } else {
        seq![s.take(p)] + campos_de(s.skip(p + 1))
    }
}

/// What each field holds, as a sequence of characters.
pub open spec fn textos(campos: Seq<Vec<char>>) -> Seq<Seq<char>> {
    campos.map_values(|campo: Vec<char>| campo@)
}

/// One of the ten decimal digits.
pub open spec fn algarismo(c: char) -> bool {
    '0' <= c <= '9'
}

/// The number that a string of decimal digits writes, the most significant
/// digit first.
pub open spec fn valor_de(s: Seq<char>) -> nat
    decreases s.len(),
{
    if s.len() == 0 {
        0
    } else {
        10 * valor_de(s.drop_last()) + (s.last() as nat - '0' as nat) as nat
    }
}

/// `s` without the `+` it may start with.
pub open spec fn sem_sinal(s: Seq<char>) -> Seq<char> {
    if s.len() > 0 && s[0] == '+' {
        s.drop_first()
    } else {
        s
    }
}

/// The `usize` that `s` writes in decimal, if it writes one: an optional
/// `+`, then one digit or more and nothing else, for a value that fits.
pub open spec fn numero_de(s: Seq<char>) -> Option<usize> {
    let digitos = sem_sinal(s);
    if digitos.len() > 0 && (forall|i: int| 0 <= i < digitos.len() ==> algarismo(digitos[i]))
        && valor_de(digitos) <= usize::MAX {
        Some(valor_de(digitos) as usize)
    } else {
        None
    }
}

/// The characters of `s`, one by one.
pub fn letras(s: &str) -> (r: Vec<char>)
    ensures
        r@ == s@,
{
    let mut r: Vec<char> = Vec::new();
    for c in it: s.chars()
        invariant
            r@ == it.seq().take(it.index() as int),
    {
        r.push(c);
    }
    r
}

/// A copy of `texto` without the white space it starts and ends with.
pub fn apara(texto: &Vec<char>) -> (r: Vec<char>)
    ensures
        r@ == aparada(texto@),
{
    let ghost s = texto@;
    let mut inicio: usize = 0;
    while inicio < texto.len() && eh_branco(texto[inicio])
        invariant
            s == texto@,
            inicio <= s.len(),
            forall|i: int| 0 <= i < inicio ==> branco(s[i]),
        decreases s.len() - inicio,
    {
        inicio += 1;
    }
    let mut fim: usize = texto.len();
    while fim > inicio && eh_branco(texto[fim - 1])
        invariant
            s == texto@,
            inicio <= fim <= s.len(),
            forall|i: int| fim <= i < s.len() ==> branco(s[i]),
        decreases fim,
    {
        fim -= 1;
    }
    let ghost resto = s.skip(inicio as int);
    proof {
        lemma_brancos_no_inicio(s, inicio as int);
        assert forall|i: int| resto.len() - (s.len() - fim) <= i < resto.len() implies branco(
            resto[i],
        ) by {
            assert(resto[i] == s[i + inicio]);
        }
        lemma_brancos_no_fim(resto, s.len() - fim);
    }
    let mut r: Vec<char> = Vec::new();
    let mut i: usize = inicio;
    while i < fim
        invariant
            s == texto@,
            inicio <= i <= fim <= s.len(),
            r@ == s.subrange(inicio as int, i as int),
        decreases fim - i,
    {
        r.push(texto[i]);
        i += 1;
    }
    proof {
        assert(r@ =~= resto.take(resto.len() - (s.len() - fim)));
    }
    r
}

/// The fields of `texto`, in order.
pub fn separa(texto: &Vec<char>) -> (campos: Vec<Vec<char>>)
    ensures
        textos(campos@) == campos_de(texto@),
        campos@.len() >= 1,
{
    let ghost s = texto@;
    let mut campos: Vec<Vec<char>> = Vec::new();
    let mut atual: Vec<char> = Vec::new();
    let ghost mut inicio: int = 0;
    let mut i: usize = 0;
    proof {
        assert(s.skip(0) =~= s);
        assert(textos(campos@) + campos_de(s.skip(0)) =~= campos_de(s));
    }
    while i < texto.len()
        invariant
            s == texto@,
            0 <= inicio <= i <= s.len(),
            atual@ == s.subrange(inicio, i as int),
            forall|k: int| inicio <= k < i ==> s[k] != ' ',
            campos_de(s) == textos(campos@) + campos_de(s.skip(inicio)),
        decreases s.len() - i,
    {
        let c = texto[i];
        if c == ' ' {
            proof {
                let resto = s.skip(inicio);
                assert forall|k: int| 0 <= k < i - inicio implies resto[k] != ' ' by {
                    assert(resto[k] == s[k + inicio]);
                }
                lemma_ate_espaco(resto, i - inicio);
                assert(resto.take(i - inicio) =~= atual@);
                assert(resto.skip(i - inicio + 1) =~= s.skip(i + 1));
                assert(textos(campos@).push(atual@) + campos_de(s.skip(i + 1))
                    =~= textos(campos@) + campos_de(resto));
            }
            let ghost antes = textos(campos@);
            campos.push(atual);
            proof {
                assert(textos(campos@) =~= antes.push(s.subrange(inicio, i as int)));
                inicio = i + 1;
            }
            atual = Vec::new();
        } else {
            atual.push(c);
        }
        i += 1;
        proof {
            assert(atual@ =~= s.subrange(inicio, i as int));
        }
    }
    proof {
        let resto = s.skip(inicio);
        assert forall|k: int| 0 <= k < resto.len() implies resto[k] != ' ' by {
            assert(resto[k] == s[k + inicio]);
        }
        lemma_ate_espaco(resto, resto.len() as int);
        assert(atual@ =~= resto);
    }
    let ghost antes = textos(campos@);
    campos.push(atual);
    proof {
        assert(textos(campos@) =~= antes.push(s.skip(inicio)));
        assert(textos(campos@) =~= campos_de(s));
    }
    campos
}

/// The `usize` that `texto` writes in decimal, or `None` if it writes none.
pub fn numero(texto: &Vec<char>) -> (r: Option<usize>)
    ensures
        r == numero_de(texto@),
{
    let ghost s = texto@;
    let primeiro: usize = if texto.len() > 0 && texto[0] == '+' {
        1
    } else {
        0
    };
    let ghost digitos = sem_sinal(s);
    proof {
        assert(digitos =~= s.skip(primeiro as int));
    }
    if primeiro == texto.len() {
        return None;
    }
    let mut valor: usize = 0;
    let mut i: usize = primeiro;
    while i < texto.len()
        invariant
            s == texto@,
            digitos == sem_sinal(s),
            digitos == s.skip(primeiro as int),
            primeiro <= i <= s.len(),
            forall|k: int| 0 <= k < i - primeiro ==> algarismo(digitos[k]),
            valor == valor_de(digitos.take(i - primeiro)),
        decreases s.len() - i,
    {
        let c = texto[i];
        assert(c == digitos[i - primeiro]);
        if !(c >= '0' && c <= '9') {
            assert(!algarismo(digitos[i - primeiro]));
            return None;
        }
        let unidade: usize = (c as u32 - '0' as u32) as usize;
        proof {
            let prefixo = digitos.take(i - primeiro + 1);
            assert(prefixo.drop_last() =~= digitos.take(i - primeiro));
            assert(prefixo.last() == c);
            assert(valor_de(prefixo) == 10 * valor + unidade);
            if forall|k: int| 0 <= k < digitos.len() ==> algarismo(digitos[k]) {
                lemma_valor_cresce(digitos, i - primeiro + 1);
            }
        }
        match valor.checked_mul(10) {
            None => {
                return None;
            },
            Some(dezena) => match dezena.checked_add(unidade) {
                None => {
                    return None;
                },
                Some(soma) => {
                    valor = soma;
                },
            },
        }
        i += 1;
    }
    proof {
        assert(digitos.take(i - primeiro) =~= digitos);
    }
    Some(valor)
}

/// `s` starts with exactly `k` white-space characters when its first `k`
/// are white space and the next one, if there is one, is not.
pub proof fn lemma_brancos_no_inicio(s: Seq<char>, k: int)
    requires
        0 <= k <= s.len(),
        forall|i: int| 0 <= i < k ==> branco(s[i]),
        k < s.len() ==> !branco(s[k]),
    ensures
        brancos_no_inicio(s) == k,
    decreases k,
{
    if k > 0 {
        let t = s.drop_first();
        assert forall|i: int| 0 <= i < k - 1 implies branco(t[i]) by {
            assert(t[i] == s[i + 1]);
        }
        lemma_brancos_no_inicio(t, k - 1);
    }
}

/// `s` ends with exactly `k` white-space characters when its last `k` are
/// white space and the one before them, if there is one, is not.
pub proof fn lemma_brancos_no_fim(s: Seq<char>, k: int)
    requires
        0 <= k <= s.len(),
        forall|i: int| s.len() - k <= i < s.len() ==> branco(s[i]),
        k < s.len() ==> !branco(s[s.len() - k - 1]),
    ensures
        brancos_no_fim(s) == k,
    decreases k,
{
    if k > 0 {
        let t = s.drop_last();
        assert forall|i: int| t.len() - (k - 1) <= i < t.len() implies branco(t[i]) by {
            assert(t[i] == s[i]);
        }
        lemma_brancos_no_fim(t, k - 1);
    }
}

/// The first field of `s` has `k` characters when none of the first `k` is
/// a space and the next one, if there is one, is.
pub proof fn lemma_ate_espaco(s: Seq<char>, k: int)
    requires
        0 <= k <= s.len(),
        forall|i: int| 0 <= i < k ==> s[i] != ' ',
        k < s.len() ==> s[k] == ' ',
    ensures
        ate_espaco(s) == k,
    decreases k,
{
    if k > 0 {
        let t = s.drop_first();
        assert forall|i: int| 0 <= i < k - 1 implies t[i] != ' ' by {
            assert(t[i] == s[i + 1]);
        }
        lemma_ate_espaco(t, k - 1);
    }
}

/// A string of digits is worth at least as much as any of its prefixes.
pub proof fn lemma_valor_cresce(s: Seq<char>, k: int)
    requires
        0 <= k <= s.len(),
        forall|i: int| 0 <= i < s.len() ==> algarismo(s[i]),
    ensures
        valor_de(s.take(k)) <= valor_de(s),
    decreases s.len() - k,
{
    if k == s.len() {
        assert(s.take(k) =~= s);
    } else {
        assert(s.drop_last().take(k) =~= s.take(k));
        lemma_valor_cresce(s.drop_last(), k);
    }
}

} // verus!
