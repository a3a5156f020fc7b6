//! The roster: a bounded, always-sorted collection of ratings together with
//! its running sum and three memoized statistics.

use vstd::prelude::*;
use rs_mois_dirty::Dirty;
use crate::cache::{atualiza_se_sujo, cache_limpo, marca_sujo, marcado_sujo, valor_guardado};
use crate::fracao::Fracao;

verus! {

/// The most ratings a roster holds.
pub const CAPACIDADE: usize = 11;

/// No entry is smaller than one that comes after it.
pub open spec fn decrescente(s: Seq<usize>) -> bool {
    forall|i: int, j: int| 0 <= i <= j < s.len() ==> s[i] >= s[j]
}

/// The sum of every entry of `s`.
pub open spec fn soma_de(s: Seq<usize>) -> nat
    decreases s.len(),
{
    if s.len() == 0 {
        0
    } else {
        soma_de(s.drop_last()) + s.last() as nat
    }
}

/// How many entries of `s` are strictly greater than `r`.
pub open spec fn maiores_que(s: Seq<usize>, r: usize) -> nat
    decreases s.len(),
{
    if s.len() == 0 {
        0
    } else {
        maiores_que(s.drop_last(), r) + if s.last() > r { 1nat } else { 0nat }
    }
}

/// `s` with `r` put right after the entries that are greater than it. On a
/// decreasing `s` this is the one decreasing arrangement of `s` and `r`.
pub open spec fn com_inserido(s: Seq<usize>, r: usize) -> Seq<usize> {
    s.insert(maiores_que(s, r) as int, r)
}

/// What a roster holding `s` holds after `push(r)`: a full roster ignores
/// the call.
pub open spec fn apos_push(s: Seq<usize>, r: usize) -> Seq<usize> {
    if s.len() >= CAPACIDADE {
        s
    } else {
        com_inserido(s, r)
    }
}

/// What a roster holding `s` holds after `troca(antigo, novo)`: the first
/// `antigo` leaves and `novo` is pushed, or nothing happens when `antigo` is
/// not there.
pub open spec fn apos_troca(s: Seq<usize>, antigo: usize, novo: usize) -> Seq<usize> {
    if s.contains(antigo) {
        apos_push(s.remove_value(antigo), novo)
    } else {
        s
    }
}

/// The amount by which the entries of `s` that lie above the mean
/// `soma / n` exceed it, times `n`: an entry `r` lies above the mean when
/// `r * n > soma`, and then exceeds it by `(r * n - soma) / n`.
pub open spec fn excedente(s: Seq<usize>, soma: int, n: int) -> int
    decreases s.len(),
{
    if s.len() == 0 {
        0
    } else {
        excedente(s.drop_last(), soma, n) + if s.last() * n > soma {
            s.last() * n - soma
        } else {
            0
        }
    }
}

/// The arithmetic mean of `s`: its sum over its length. An empty roster has
/// no mean.
pub open spec fn media_de(s: Seq<usize>) -> Option<Fracao> {
    if s.len() == 0 {
        None
    } else {
        Some(Fracao { numerador: soma_de(s) as u128, denominador: s.len() as u128 })
    }
}

/// The excess of `s`: the sum, over the entries strictly greater than the
/// mean, of their distance to the mean. An empty roster has none.
pub open spec fn excesso_de(s: Seq<usize>) -> Option<Fracao> {
    if s.len() == 0 {
        None
    } else {
        Some(
            Fracao {
                numerador: excedente(s, soma_de(s) as int, s.len() as int) as u128,
                denominador: s.len() as u128,
            },
        )
    }
}

/// The real mean of `s`: sum plus excess, over the length. With the excess
/// being `e / n` this is `(soma * n + e) / (n * n)`. An empty roster has
/// none.
pub open spec fn media_real_de(s: Seq<usize>) -> Option<Fracao> {
    if s.len() == 0 {
        None
    } else {
        Some(
            Fracao {
                numerador: (soma_de(s) * s.len() + excedente(
                    s,
                    soma_de(s) as int,
                    s.len() as int,
                )) as u128,
                denominador: (s.len() * s.len()) as u128,
            },
        )
    }
}

/// A roster of at most `CAPACIDADE` ratings, kept in decreasing order, with
/// the sum of the ratings and a cache for each of the three statistics.
///
/// A rating that goes in or out marks the three caches as out of date. A
/// statistic that is read is computed only if its cache is out of date, and
/// is then current until the next rating goes in or out. Reading the excess
/// reads the mean, and reading the real mean reads the excess, so a read
/// leaves current everything it depends on.
pub struct Jogadores {
    classificacoes: Vec<usize>,
    soma: u128,
    media_inicial: Dirty<Option<Fracao>>,
    excesso: Dirty<Option<Fracao>>,
    media_real: Dirty<Option<Fracao>>,
}

impl View for Jogadores {
    type V = Seq<usize>;

    /// The ratings, in the order in which the roster stores them.
    closed spec fn view(&self) -> Seq<usize> {
        self.classificacoes@
    }
}

impl Jogadores {
    /// The cached mean is current: it will be handed out as it is.
    pub closed spec fn media_inicial_em_dia(&self) -> bool {
        !marcado_sujo(self.media_inicial)
    }

    /// The cached excess is current.
    pub closed spec fn excesso_em_dia(&self) -> bool {
        !marcado_sujo(self.excesso)
    }

    /// The cached real mean is current.
    pub closed spec fn media_real_em_dia(&self) -> bool {
        !marcado_sujo(self.media_real)
    }

    /// The running sum, as the roster stores it.
    pub closed spec fn soma(&self) -> nat {
        self.soma as nat
    }

    /// The roster is within capacity and in decreasing order, its sum is the
    /// sum of its ratings, and every cache that is current holds the
    /// statistic of the ratings as they are now. A statistic is only current
    /// when the ones it is computed from are.
    pub closed spec fn wf(&self) -> bool {
        &&& self@.len() <= CAPACIDADE
        &&& decrescente(self@)
        &&& self.soma == soma_de(self@)
        &&& self.media_inicial_em_dia() ==> valor_guardado(self.media_inicial) == media_de(self@)
        &&& self.excesso_em_dia() ==> valor_guardado(self.excesso) == excesso_de(self@)
        &&& self.media_real_em_dia() ==> valor_guardado(self.media_real) == media_real_de(self@)
        &&& self.media_real_em_dia() ==> self.excesso_em_dia()
        &&& self.excesso_em_dia() ==> self.media_inicial_em_dia()
    }

    /// What holds of every roster, whatever was done to it: it is within
    /// capacity and in decreasing order, its sum is the sum of its ratings,
    /// and a statistic is only current when the ones it is computed from
    /// are.
    pub proof fn lemma_wf(&self)
        requires
            self.wf(),
        ensures
            self@.len() <= CAPACIDADE,
            decrescente(self@),
            self.soma() == soma_de(self@),
            self.media_real_em_dia() ==> self.excesso_em_dia(),
            self.excesso_em_dia() ==> self.media_inicial_em_dia(),
    {
    }

    /// An empty roster. Its caches start out current: an empty roster has no
    /// statistics, and that is what they hold.
    pub fn new() -> (novo: Self)
        ensures
            novo.wf(),
            novo@ == Seq::<usize>::empty(),
            novo.media_inicial_em_dia(),
            novo.excesso_em_dia(),
            novo.media_real_em_dia(),
    {
        Self {
            classificacoes: Vec::new(),
            soma: 0,
            media_inicial: cache_limpo(),
            excesso: cache_limpo(),
            media_real: cache_limpo(),
        }
    }

    /// The ratings, highest first.
    pub fn get_classificacoes(&self) -> (classificacoes: &[usize])
        ensures
            classificacoes@ == self@,
    {
        self.classificacoes.as_slice()
    }

    /// The sum of the ratings.
    pub fn total(&self) -> (soma: u128)
        requires
            self.wf(),
        ensures
            soma == soma_de(self@),
            soma == self.soma(),
    {
        self.soma
    }

    /// Marks the three statistics as out of date.
    fn dirty_all(&mut self)
        ensures
            final(self).classificacoes == old(self).classificacoes,
            final(self).soma == old(self).soma,
            !final(self).media_inicial_em_dia(),
            !final(self).excesso_em_dia(),
            !final(self).media_real_em_dia(),
    {
        marca_sujo(&mut self.media_inicial);
        marca_sujo(&mut self.excesso);
        marca_sujo(&mut self.media_real);
    }

    /// Adds `rating` in its place, unless the roster is full: then nothing
    /// at all changes. A rating that went in leaves every statistic out of
    /// date.
    pub fn push(&mut self, rating: usize)
        requires
            old(self).wf(),
        ensures
            final(self).wf(),
            final(self)@ == apos_push(old(self)@, rating),
            decrescente(final(self)@),
            final(self).soma() == soma_de(final(self)@),
            old(self)@.len() >= CAPACIDADE ==> *final(self) == *old(self),
            old(self)@.len() < CAPACIDADE ==> {
                &&& final(self)@.len() == old(self)@.len() + 1
                &&& final(self).soma() == old(self).soma() + rating
                &&& !final(self).media_inicial_em_dia()
                &&& !final(self).excesso_em_dia()
                &&& !final(self).media_real_em_dia()
            },
    {
        if self.classificacoes.len() >= CAPACIDADE {
            return ;
        }
        let mut posicao: usize = 0;
        while posicao < self.classificacoes.len() && self.classificacoes[posicao] > rating
            invariant
                *self == *old(self),
                posicao <= self.classificacoes.len(),
                forall|i: int| 0 <= i < posicao ==> self.classificacoes@[i] > rating,
            decreases self.classificacoes.len() - posicao,
        {
            posicao += 1;
        }
        proof {
            let s = self.classificacoes@;
            assert forall|i: int| posicao <= i < s.len() implies s[i] <= rating by {
                assert(s[posicao as int] >= s[i]);
            }
            lemma_maiores_que(s, rating, posicao as int);
            lemma_com_inserido(s, rating);
            lemma_soma_limite(s);
        }
        self.classificacoes.insert(posicao, rating);
        self.soma += rating as u128;
        self.dirty_all();
    }

    /// Takes out the first `item`, if there is one, and says whether there
    /// was. Among equal ratings the first is the one that stands highest. A
    /// roster without `item` is left exactly as it was; a removal leaves
    /// every statistic out of date.
    pub fn remove(&mut self, item: usize) -> (achou: bool)
        requires
            old(self).wf(),
        ensures
            final(self).wf(),
            achou == old(self)@.contains(item),
            final(self)@ == old(self)@.remove_value(item),
            !achou ==> *final(self) == *old(self),
            achou ==> {
                &&& final(self)@.len() == old(self)@.len() - 1
                &&& final(self).soma() == old(self).soma() - item
                &&& !final(self).media_inicial_em_dia()
                &&& !final(self).excesso_em_dia()
                &&& !final(self).media_real_em_dia()
            },
    {
        let mut posicao: usize = 0;
        while posicao < self.classificacoes.len() && self.classificacoes[posicao] != item
            invariant
                *self == *old(self),
                posicao <= self.classificacoes.len(),
                forall|i: int| 0 <= i < posicao ==> self.classificacoes@[i] != item,
            decreases self.classificacoes.len() - posicao,
        {
            posicao += 1;
        }
        proof {
            self.classificacoes@.index_of_first_ensures(item);
        }
        if posicao < self.classificacoes.len() {
            proof {
                let s = self.classificacoes@;
                assert(s[posicao as int] == item);
                assert(s.index_of_first(item) == Some(posicao as int));
                lemma_soma_remove(s, posicao as int);
                lemma_remove_decrescente(s, posicao as int);
            }
            self.soma -= item as u128;
            self.dirty_all();
            self.classificacoes.remove(posicao);
            true
        } else {
            false
        }
    }

    /// Replaces the first `antigo` by `novo` and says whether `antigo` was
    /// there. Without `antigo` nothing changes and `novo` does not go in.
    pub fn troca(&mut self, antigo: usize, novo: usize) -> (trocou: bool)
        requires
            old(self).wf(),
        ensures
            final(self).wf(),
            trocou == old(self)@.contains(antigo),
            final(self)@ == apos_troca(old(self)@, antigo, novo),
            !trocou ==> *final(self) == *old(self),
            trocou ==> {
                &&& final(self)@.len() == old(self)@.len()
                &&& final(self).soma() == old(self).soma() - antigo + novo
                &&& !final(self).media_inicial_em_dia()
                &&& !final(self).excesso_em_dia()
                &&& !final(self).media_real_em_dia()
            },
    {
        match self.remove(antigo) {
            true => {
                self.push(novo);
                true
            },
            _ => false,
        }
    }

    /// What a call of `media_inicial` on `self` may leave behind and return:
    /// the mean of the ratings, its cache current, nothing else touched; and
    /// nothing touched at all when the cache was current already.
    pub open spec fn leitura_media_inicial(&self, depois: Jogadores, valor: Option<Fracao>) -> bool {
        &&& valor == media_de(self@)
        &&& depois@ == self@
        &&& depois.soma() == self.soma()
        &&& depois.media_inicial_em_dia()
        &&& depois.excesso_em_dia() == self.excesso_em_dia()
        &&& depois.media_real_em_dia() == self.media_real_em_dia()
        &&& self.media_inicial_em_dia() ==> depois == *self
    }

    /// What a call of `excesso` on `self` may leave behind and return: the
    /// excess of the ratings, its cache and that of the mean current, the
    /// rest untouched; and nothing touched at all when the cache of the
    /// excess was current already.
    pub open spec fn leitura_excesso(&self, depois: Jogadores, valor: Option<Fracao>) -> bool {
        &&& valor == excesso_de(self@)
        &&& depois@ == self@
        &&& depois.soma() == self.soma()
        &&& depois.media_inicial_em_dia()
        &&& depois.excesso_em_dia()
        &&& depois.media_real_em_dia() == self.media_real_em_dia()
        &&& self.excesso_em_dia() ==> depois == *self
    }

    /// What a call of `media_real` on `self` may leave behind and return:
    /// the real mean of the ratings and all three caches current; and
    /// nothing touched at all when the cache of the real mean was current
    /// already.
    pub open spec fn leitura_media_real(&self, depois: Jogadores, valor: Option<Fracao>) -> bool {
        &&& valor == media_real_de(self@)
        &&& depois@ == self@
        &&& depois.soma() == self.soma()
        &&& depois.media_inicial_em_dia()
        &&& depois.excesso_em_dia()
        &&& depois.media_real_em_dia()
        &&& self.media_real_em_dia() ==> depois == *self
    }

    /// The arithmetic mean of the ratings, or `None` for an empty roster.
    /// It is computed only if a rating went in or out since it was last
    /// read.
    pub fn media_inicial(&mut self) -> (valor: Option<Fracao>)
        requires
            old(self).wf(),
        ensures
            final(self).wf(),
            old(self).leitura_media_inicial(*final(self), valor),
    {
        let soma = self.soma;
        let n = self.classificacoes.len();
        let ghost guardada = self.media_inicial;
        let calcula = || -> (m: Option<Fracao>)
            requires
                marcado_sujo(guardada),
            ensures
                m == calculo_da_media(soma, n),
            {
                calcula_media(soma, n)
            };
        atualiza_se_sujo(&mut self.media_inicial, calcula)
    }

    /// The excess of the ratings over their mean, or `None` for an empty
    /// roster. Reads the mean first, so that the mean is current afterwards
    /// too.
    pub fn excesso(&mut self) -> (valor: Option<Fracao>)
        requires
            old(self).wf(),
        ensures
            final(self).wf(),
            old(self).leitura_excesso(*final(self), valor),
    {
        let media = self.media_inicial();
        let classificacoes = &self.classificacoes;
        let ghost guardado = self.excesso;
        let calcula = || -> (e: Option<Fracao>)
            requires
                marcado_sujo(guardado),
            ensures
                e == excesso_de(classificacoes@),
            {
                calcula_excesso(classificacoes, media)
            };
        atualiza_se_sujo(&mut self.excesso, calcula)
    }

    /// The real mean of the ratings, or `None` for an empty roster. Reads
    /// the excess first, so that all three statistics are current
    /// afterwards.
    pub fn media_real(&mut self) -> (valor: Option<Fracao>)
        requires
            old(self).wf(),
        ensures
            final(self).wf(),
            old(self).leitura_media_real(*final(self), valor),
    {
        let excesso = self.excesso();
        let soma = self.soma;
        let n = self.classificacoes.len();
        proof {
            lemma_estatisticas_cabem(self.classificacoes@);
        }
        let ghost guardada = self.media_real;
        let calcula = || -> (m: Option<Fracao>)
            requires
                marcado_sujo(guardada),
            ensures
                m == calculo_da_media_real(soma, n, excesso),
            {
                calcula_media_real(soma, n, excesso)
            };
        atualiza_se_sujo(&mut self.media_real, calcula)
    }
}

/// The mean that `calcula_media` builds from a sum and a count.
pub open spec fn calculo_da_media(soma: u128, n: usize) -> Option<Fracao> {
    if n == 0 {
        None
    } else {
        Some(Fracao { numerador: soma, denominador: n as u128 })
    }
}

/// The real mean that `calcula_media_real` builds from a sum, a count and an
/// excess.
pub open spec fn calculo_da_media_real(soma: u128, n: usize, excesso: Option<Fracao>) -> Option<
    Fracao,
> {
    match excesso {
        None => None,
        Some(e) => Some(
            Fracao {
                numerador: (soma * e.denominador + e.numerador) as u128,
                denominador: (e.denominador * n) as u128,
            },
        ),
    }
}

fn calcula_media(soma: u128, n: usize) -> (media: Option<Fracao>)
    ensures
        media == calculo_da_media(soma, n),
{
    if n == 0 {
        None
    } else {
        Some(Fracao { numerador: soma, denominador: n as u128 })
    }
}

fn calcula_excesso(classificacoes: &Vec<usize>, media: Option<Fracao>) -> (excesso: Option<Fracao>)
    requires
        classificacoes@.len() <= CAPACIDADE,
        media == media_de(classificacoes@),
    ensures
        excesso == excesso_de(classificacoes@),
{
    match media {
        None => None,
        Some(m) => {
            let ghost s = classificacoes@;
            let mut acima: u128 = 0;
            let mut i: usize = 0;
            proof {
                lemma_soma_limite(s);
            }
            while i < classificacoes.len()
                invariant
                    s == classificacoes@,
                    i <= s.len() <= CAPACIDADE,
                    m.denominador == s.len(),
                    m.numerador == soma_de(s),
                    acima == excedente(s.take(i as int), m.numerador as int, m.denominador as int),
                    acima <= i * (usize::MAX * CAPACIDADE),
                decreases s.len() - i,
            {
                let rating = classificacoes[i];
                proof {
                    assert(s.take(i + 1).drop_last() =~= s.take(i as int));
                    assert(rating * m.denominador <= usize::MAX * CAPACIDADE) by (nonlinear_arith)
                        requires
                            rating <= usize::MAX,
                            m.denominador <= CAPACIDADE,
                    ;
                    assert((i + 1) * (usize::MAX * CAPACIDADE) == i * (usize::MAX * CAPACIDADE)
                        + usize::MAX * CAPACIDADE) by (nonlinear_arith);
                    assert(i * (usize::MAX * CAPACIDADE) <= CAPACIDADE * (usize::MAX * CAPACIDADE))
                        by (nonlinear_arith)
                        requires
                            i <= CAPACIDADE,
                    ;
                }
                let produto: u128 = (rating as u128) * m.denominador;
                if produto > m.numerador {
                    acima += produto - m.numerador;
                }
                i += 1;
            }
            proof {
                assert(s.take(i as int) =~= s);
            }
            Some(Fracao { numerador: acima, denominador: m.denominador })
        },
    }
}

fn calcula_media_real(soma: u128, n: usize, excesso: Option<Fracao>) -> (media: Option<Fracao>)
    requires
        n <= CAPACIDADE,
        soma <= CAPACIDADE * usize::MAX,
        excesso matches Some(e) ==> e.denominador <= CAPACIDADE && e.numerador <= CAPACIDADE
            * CAPACIDADE * usize::MAX,
    ensures
        media == calculo_da_media_real(soma, n, excesso),
{
    match excesso {
        None => None,
        Some(e) => {
            proof {
                assert(soma * e.denominador <= CAPACIDADE * CAPACIDADE * usize::MAX)
                    by (nonlinear_arith)
                    requires
                        soma <= CAPACIDADE * usize::MAX,
                        e.denominador <= CAPACIDADE,
                ;
                assert(e.denominador * n <= CAPACIDADE * CAPACIDADE) by (nonlinear_arith)
                    requires
                        e.denominador <= CAPACIDADE,
                        n <= CAPACIDADE,
                ;
            }
            Some(
                Fracao {
                    numerador: soma * e.denominador + e.numerador,
                    denominador: e.denominador * (n as u128),
                },
            )
        },
    }
}

/// Removing a rating and pushing it again gives the roster back: the same
/// ratings in the same order, and so the same sum and the same length. This
/// holds when the rating is there to be removed, and also on a full roster
/// that lacks it, where neither call does anything. On a roster with room
/// that lacks the rating, the push makes the roster longer.
pub proof fn lemma_remove_e_push(s: Seq<usize>, r: usize)
    requires
        decrescente(s),
        s.len() <= CAPACIDADE,
        s.contains(r) || s.len() == CAPACIDADE,
    ensures
        apos_push(s.remove_value(r), r) == s,
        soma_de(apos_push(s.remove_value(r), r)) == soma_de(s),
        apos_push(s.remove_value(r), r).len() == s.len(),
{
    s.index_of_first_ensures(r);
    if s.contains(r) {
        lemma_primeira_ocorrencia(s, r);
        lemma_posicao(s, r);
        let k = maiores_que(s, r) as int;
        let t = s.remove(k);
        assert(s.remove_value(r) == t);
        assert forall|i: int| 0 <= i < k implies t[i] > r by {
            assert(t[i] == s[i]);
        }
        assert forall|i: int| k <= i < t.len() implies t[i] <= r by {
            assert(t[i] == s[i + 1]);
        }
        lemma_maiores_que(t, r, k);
        assert(t.insert(k, r) =~= s);
    }
}

/// Two reads of the real mean with no change to the roster in between:
/// the second returns what the first returned, and leaves the roster,
/// caches included, exactly as the first read left it, so nothing is
/// derived from the ratings a second time.
pub proof fn lemma_media_real_repetida(
    antes: Jogadores,
    meio: Jogadores,
    primeira: Option<Fracao>,
    depois: Jogadores,
    segunda: Option<Fracao>,
)
    requires
        antes.leitura_media_real(meio, primeira),
        meio.leitura_media_real(depois, segunda),
    ensures
        segunda == primeira,
        depois == meio,
{
}

/// A rating put at the end adds itself to the sum.
pub proof fn lemma_soma_push(s: Seq<usize>, r: usize)
    ensures
        soma_de(s.push(r)) == soma_de(s) + r,
{
    assert(s.push(r).drop_last() =~= s);
}

/// A rating put anywhere adds itself to the sum.
pub proof fn lemma_soma_insert(s: Seq<usize>, k: int, r: usize)
    requires
        0 <= k <= s.len(),
    ensures
        soma_de(s.insert(k, r)) == soma_de(s) + r,
    decreases s.len() - k,
{
    if k == s.len() {
        assert(s.insert(k, r) =~= s.push(r));
        lemma_soma_push(s, r);
    } else {
        assert(s.insert(k, r).drop_last() =~= s.drop_last().insert(k, r));
        assert(s.insert(k, r).last() == s.last());
        lemma_soma_insert(s.drop_last(), k, r);
    }
}

/// A rating taken out takes itself from the sum.
pub proof fn lemma_soma_remove(s: Seq<usize>, k: int)
    requires
        0 <= k < s.len(),
    ensures
        soma_de(s.remove(k)) + s[k] == soma_de(s),
    decreases s.len() - k,
{
    if k == s.len() - 1 {
        assert(s.remove(k) =~= s.drop_last());
    } else {
        assert(s.remove(k).drop_last() =~= s.drop_last().remove(k));
        assert(s.remove(k).last() == s.last());
        lemma_soma_remove(s.drop_last(), k);
    }
}

/// On a decreasing sequence the entries greater than `r` are exactly the
/// ones before position `k`, once everything before `k` is greater than `r`
/// and nothing from `k` on is.
pub proof fn lemma_maiores_que(s: Seq<usize>, r: usize, k: int)
    requires
        0 <= k <= s.len(),
        forall|i: int| 0 <= i < k ==> s[i] > r,
        forall|i: int| k <= i < s.len() ==> s[i] <= r,
    ensures
        maiores_que(s, r) == k,
    decreases s.len(),
{
    if s.len() > 0 {
        if k == s.len() {
            lemma_maiores_que(s.drop_last(), r, k - 1);
        } else {
            lemma_maiores_que(s.drop_last(), r, k);
        }
    }
}

/// In a decreasing sequence that holds `r`, the first `r` stands right after
/// the entries greater than `r`.
pub proof fn lemma_primeira_ocorrencia(s: Seq<usize>, r: usize)
    requires
        decrescente(s),
        s.contains(r),
    ensures
        s.index_of_first(r) == Some(maiores_que(s, r) as int),
{
    s.index_of_first_ensures(r);
    let k = s.index_of_first(r).unwrap();
    assert forall|i: int| 0 <= i < k implies s[i] > r by {
        assert(s[i] >= s[k]);
        assert(s[i] != r);
    }
    assert forall|i: int| k <= i < s.len() implies s[i] <= r by {
        assert(s[k] >= s[i]);
    }
    lemma_maiores_que(s, r, k);
}

/// Putting `r` in its place keeps the order, adds `r` to the sum and one to
/// the length.
pub proof fn lemma_com_inserido(s: Seq<usize>, r: usize)
    requires
        decrescente(s),
    ensures
        decrescente(com_inserido(s, r)),
        soma_de(com_inserido(s, r)) == soma_de(s) + r,
        com_inserido(s, r).len() == s.len() + 1,
        com_inserido(s, r).to_multiset() == s.to_multiset().insert(r),
{
    let k = maiores_que(s, r) as int;
    lemma_posicao(s, r);
    lemma_soma_insert(s, k, r);
    let t = s.insert(k, r);
    assert forall|i: int, j: int| 0 <= i <= j < t.len() implies t[i] >= t[j] by {
        if i < k && j > k {
            assert(s[i] >= s[j - 1]);
        } else if i < k && j < k {
            assert(s[i] >= s[j]);
        } else if i > k && j > k {
            assert(s[i - 1] >= s[j - 1]);
        }
    }
    vstd::seq_lib::to_multiset_insert(s, k, r);
}

/// The position that `com_inserido` picks splits a decreasing sequence into
/// the entries greater than `r` and the rest.
pub proof fn lemma_posicao(s: Seq<usize>, r: usize)
    requires
        decrescente(s),
    ensures
        maiores_que(s, r) <= s.len(),
        forall|i: int| 0 <= i < maiores_que(s, r) ==> s[i] > r,
        forall|i: int| maiores_que(s, r) <= i < s.len() ==> s[i] <= r,
    decreases s.len(),
{
    if s.len() > 0 {
        let t = s.drop_last();
        if s.last() > r {
            assert forall|i: int| 0 <= i < s.len() implies s[i] > r by {
                assert(s[i] >= s.last());
            }
            lemma_maiores_que(s, r, s.len() as int);
        } else {
            assert(decrescente(t));
            lemma_posicao(t, r);
            let m = maiores_que(s, r) as int;
            assert(m == maiores_que(t, r));
            assert forall|i: int| 0 <= i < m implies s[i] > r by {
                assert(t[i] == s[i]);
            }
            assert forall|i: int| m <= i < s.len() implies s[i] <= r by {
                if i < t.len() {
                    assert(t[i] == s[i]);
                }
            }
        }
    }
}

/// The sum of a sequence is at most its length times the largest `usize`.
pub proof fn lemma_soma_limite(s: Seq<usize>)
    ensures
        soma_de(s) <= s.len() * usize::MAX,
    decreases s.len(),
{
    if s.len() > 0 {
        lemma_soma_limite(s.drop_last());
        assert(soma_de(s) <= (s.len() - 1) * usize::MAX + usize::MAX);
        assert((s.len() - 1) * usize::MAX + usize::MAX == s.len() * usize::MAX) by (nonlinear_arith);
    }
}

/// Taking an entry out of a decreasing sequence leaves it decreasing.
pub proof fn lemma_remove_decrescente(s: Seq<usize>, k: int)
    requires
        decrescente(s),
        0 <= k < s.len(),
    ensures
        decrescente(s.remove(k)),
{
    let t = s.remove(k);
    assert forall|i: int, j: int| 0 <= i <= j < t.len() implies t[i] >= t[j] by {
        let a = if i < k { i } else { i + 1 };
        let b = if j < k { j } else { j + 1 };
        assert(t[i] == s[a]);
        assert(t[j] == s[b]);
    }
}

/// The excess, before the division, is never negative and at most
/// `usize::MAX * n` for each entry.
pub proof fn lemma_excedente_limite(s: Seq<usize>, soma: int, n: int)
    requires
        0 <= soma,
        0 <= n,
    ensures
        0 <= excedente(s, soma, n) <= s.len() * (usize::MAX * n),
    decreases s.len(),
{
    if s.len() > 0 {
        lemma_excedente_limite(s.drop_last(), soma, n);
        assert(s.last() * n <= usize::MAX * n) by (nonlinear_arith)
            requires
                s.last() <= usize::MAX,
                0 <= n,
        ;
        assert((s.len() - 1) * (usize::MAX * n) + usize::MAX * n == s.len() * (usize::MAX * n))
            by (nonlinear_arith);
    }
}

/// On a roster within capacity the terms of the three statistics fit the
/// integers that hold them, so the conversions in `media_de`, `excesso_de`
/// and `media_real_de` lose nothing.
pub proof fn lemma_estatisticas_cabem(s: Seq<usize>)
    requires
        s.len() <= CAPACIDADE,
    ensures
        soma_de(s) <= CAPACIDADE * usize::MAX,
        0 <= excedente(s, soma_de(s) as int, s.len() as int) <= CAPACIDADE * CAPACIDADE
            * usize::MAX,
        soma_de(s) * s.len() + excedente(s, soma_de(s) as int, s.len() as int) <= 2 * CAPACIDADE
            * CAPACIDADE * usize::MAX,
        2 * CAPACIDADE * CAPACIDADE * usize::MAX <= u128::MAX,
{
    lemma_soma_limite(s);
    lemma_excedente_limite(s, soma_de(s) as int, s.len() as int);
    let n = s.len() as int;
    let m = usize::MAX as int;
    assert(n * m <= 11 * m) by (nonlinear_arith)
        requires
            0 <= n <= 11,
            0 <= m,
    ;
    assert(n * (m * n) <= 121 * m) by (nonlinear_arith)
        requires
            0 <= n <= 11,
            0 <= m,
    ;
    assert(soma_de(s) * n <= 121 * m) by (nonlinear_arith)
        requires
            soma_de(s) <= 11 * m,
            0 <= n <= 11,
            0 <= m,
    ;
}

} // verus!
