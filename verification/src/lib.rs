//! Ratings of a squad of at most eleven players, the statistics drawn from
//! them, and the dialogue through which a squad is entered and changed.
//!
//! * [`jogadores`] holds the roster: the ratings in decreasing order, their
//!   sum, and the mean, the excess and the real mean, each computed when it
//!   is read after a change and remembered until the next one.
//! * [`fracao`] is the form in which a statistic is handed out: an exact
//!   quotient, never a rounded one.
//! * [`texto`] trims a line, splits it into fields and reads numbers.
//! * [`leitura`] reads a request from a line.
//! * This module reads the lines of a squad (`parse_jogadores`) and takes a
//!   dialogue forward one line at a time (`run`). It reads nothing and shows
//!   nothing itself: whoever drives the dialogue hands in each line and does
//!   what the answer says.
//!
//! Everything is proved against its contract except what rests on code that
//! Verus does not see: the dirty-flag cells of `rs_mois_dirty`, described in
//! [`cache`], and the standard library's notion of white space, named in
//! [`texto`].

use vstd::prelude::*;
use crate::jogadores::{
    apos_push, apos_troca, decrescente, lemma_com_inserido, soma_de, Jogadores, CAPACIDADE,
};
use crate::leitura::{interpreta, leitura_de, Leitura};
use crate::texto::{apara, aparada, campos_de, letras, numero, numero_de, separa};

pub mod cache;
pub mod fracao;
pub mod jogadores;
pub mod leitura;
pub mod texto;

verus! {

/// Why the lines of a squad could not be read.
#[derive(Clone, Copy, PartialEq, Eq, Debug, Structural)]
pub enum ErroLeitura {
    /// The first field of a line is not a number.
    PrimeiroArgumento,
    /// The second field of a line is there and is not a number.
    SegundoArgumento,
}

/// What the lines hold, as sequences of characters.
pub open spec fn linhas_de(linhas: Seq<String>) -> Seq<Seq<char>> {
    linhas.map_values(|linha: String| linha@)
}

/// The rating that a line of a squad gives and how many times it gives it:
/// the first field is the rating, the second, if there is one, the number of
/// players with that rating. Further fields are not looked at.
pub open spec fn jogador_de(linha: Seq<char>) -> Result<(usize, usize), ErroLeitura> {
    let campos = campos_de(aparada(linha));
    match numero_de(campos[0]) {
        None => Err(ErroLeitura::PrimeiroArgumento),
        Some(rating) => {
            if campos.len() < 2 {
                Ok((rating, 1usize))
            } else {
                match numero_de(campos[1]) {
                    None => Err(ErroLeitura::SegundoArgumento),
                    Some(vezes) => Ok((rating, vezes)),
                }
            }
        },
    }
}

/// The ratings that the lines of a squad give, in the order of the lines,
/// or the error of the first line that cannot be read. Empty lines are
/// passed over.
pub open spec fn elenco_de(linhas: Seq<Seq<char>>) -> Result<Seq<usize>, ErroLeitura>
    decreases linhas.len(),
{
    if linhas.len() == 0 {
        Ok(Seq::empty())
    } else {
        match elenco_de(linhas.drop_last()) {
            Err(erro) => Err(erro),
            Ok(antes) => {
                if linhas.last().len() == 0 {
                    Ok(antes)
                } else {
                    match jogador_de(linhas.last()) {
                        Err(erro) => Err(erro),
                        Ok((rating, vezes)) => Ok(antes + Seq::new(vezes as nat, |i: int| rating)),
                    }
                }
            },
        }
    }
}

/// The rating and the count that one line of a squad gives.
pub fn jogador(linha: &str) -> (r: Result<(usize, usize), ErroLeitura>)
    ensures
        r == jogador_de(linha@),
{
    let campos = separa(&apara(&letras(linha)));
    match numero(&campos[0]) {
        None => Err(ErroLeitura::PrimeiroArgumento),
        Some(rating) => {
            if campos.len() < 2 {
                Ok((rating, 1))
            } else {
                match numero(&campos[1]) {
                    None => Err(ErroLeitura::SegundoArgumento),
                    Some(vezes) => Ok((rating, vezes)),
                }
            }
        },
    }
}

/// Whether the lines of a squad can be read, and if not, what is wrong
/// with the first line that cannot.
pub fn verifica_jogadores(jogadores: &[String]) -> (r: Result<(), ErroLeitura>)
    ensures
        match elenco_de(linhas_de(jogadores@)) {
            Ok(_) => r is Ok,
            Err(erro) => r == Err::<(), ErroLeitura>(erro),
        },
{
    let ghost linhas = linhas_de(jogadores@);
    let mut i: usize = 0;
    proof {
        assert(linhas.take(0) =~= Seq::<Seq<char>>::empty());
    }
    while i < jogadores.len()
        invariant
            linhas == linhas_de(jogadores@),
            i <= jogadores@.len(),
            elenco_de(linhas.take(i as int)) is Ok,
        decreases jogadores@.len() - i,
    {
        let linha = jogadores[i].as_str();
        proof {
            assert(linhas.take(i + 1).drop_last() =~= linhas.take(i as int));
            assert(linhas.take(i + 1).last() == linha@);
        }
        if !linha.is_empty() {
            if let Err(erro) = jogador(linha) {
                proof {
                    lemma_erro_fica(linhas, i + 1);
                }
                return Err(erro);
            }
        }
        i += 1;
    }
    proof {
        assert(linhas.take(i as int) =~= linhas);
    }
    Ok(())
}

/// The ratings that the lines of a squad give: for each line that is not
/// empty, its rating as many times as the line says. The lines must be
/// readable; `tenta_parse_jogadores` is there for lines of which this is not
/// known.
pub fn parse_jogadores(jogadores: &[String]) -> (new_jogadores: Vec<usize>)
    requires
        elenco_de(linhas_de(jogadores@)) is Ok,
    ensures
        Ok::<Seq<usize>, ErroLeitura>(new_jogadores@) == elenco_de(linhas_de(jogadores@)),
{
    let ghost linhas = linhas_de(jogadores@);
    let mut new_jogadores: Vec<usize> = Vec::new();
    let mut i: usize = 0;
    proof {
        assert(linhas.take(0) =~= Seq::<Seq<char>>::empty());
    }
    while i < jogadores.len()
        invariant
            linhas == linhas_de(jogadores@),
            elenco_de(linhas) is Ok,
            i <= jogadores@.len(),
            elenco_de(linhas.take(i as int)) == Ok::<Seq<usize>, ErroLeitura>(new_jogadores@),
        decreases jogadores@.len() - i,
    {
        let linha = jogadores[i].as_str();
        proof {
            assert(linhas.take(i + 1).drop_last() =~= linhas.take(i as int));
            assert(linhas.take(i + 1).last() == linha@);
            if elenco_de(linhas.take(i + 1)) is Err {
                lemma_erro_fica(linhas, i + 1);
            }
        }
        if !linha.is_empty() {
            if let Ok((rating, vezes)) = jogador(linha) {
                let ghost antes = new_jogadores@;
                let mut k: usize = 0;
                while k < vezes
                    invariant
                        k <= vezes,
                        new_jogadores@ == antes + Seq::new(k as nat, |i: int| rating),
                    decreases vezes - k,
                {
                    new_jogadores.push(rating);
                    k += 1;
                    proof {
                        assert(new_jogadores@ =~= antes + Seq::new(k as nat, |i: int| rating));
                    }
                }
            }
        }
        i += 1;
    }
    proof {
        assert(linhas.take(i as int) =~= linhas);
    }
    new_jogadores
}

/// The ratings that the lines of a squad give, or what is wrong with the
/// first line that cannot be read.
pub fn tenta_parse_jogadores(jogadores: &[String]) -> (r: Result<Vec<usize>, ErroLeitura>)
    ensures
        match elenco_de(linhas_de(jogadores@)) {
            Ok(elenco) => r matches Ok(lidos) && lidos@ == elenco,
            Err(erro) => r == Err::<Vec<usize>, ErroLeitura>(erro),
        },
{
    match verifica_jogadores(jogadores) {
        Err(erro) => Err(erro),
        Ok(_) => Ok(parse_jogadores(jogadores)),
    }
}

/// Where a dialogue stands.
#[derive(Clone, Copy, PartialEq, Eq, Debug, Structural)]
pub enum Fase {
    /// The lines of the squad are being taken in.
    Carga,
    /// The squad is loaded and requests are being taken in.
    Comandos,
    /// The dialogue is over.
    Fim,
}

/// What is to be done after a line has been taken in.
#[derive(Clone, Copy, PartialEq, Eq, Debug, Structural)]
pub enum Acao {
    /// Hand in the next line of the squad.
    LeJogador,
    /// Show the roster and its statistics, then hand in the next request.
    Mostra,
    /// Stop: the dialogue is over.
    Encerra,
    /// Stop: the squad could not be read.
    Aborta(ErroLeitura),
}

/// A dialogue: its phase and, while the squad is being taken in, the lines
/// that came so far.
pub struct Sessao {
    fase: Fase,
    linhas: Vec<String>,
}

impl Sessao {
    /// The phase the dialogue is in.
    pub closed spec fn fase(&self) -> Fase {
        self.fase
    }

    /// The lines of the squad that were taken in and not yet read.
    pub closed spec fn linhas(&self) -> Seq<Seq<char>> {
        linhas_de(self.linhas@)
    }

    /// While the squad is being taken in there is room for one line more;
    /// afterwards no line is kept.
    pub open spec fn wf(&self) -> bool {
        if self.fase() == Fase::Carga {
            self.linhas().len() < CAPACIDADE
        } else {
            self.linhas().len() == 0
        }
    }

    /// A dialogue that has yet to take in its first line.
    pub fn new() -> (nova: Self)
        ensures
            nova.wf(),
            nova.fase() == Fase::Carga,
            nova.linhas() == Seq::<Seq<char>>::empty(),
    {
        let nova = Sessao { fase: Fase::Carga, linhas: Vec::new() };
        assert(nova.linhas() =~= Seq::<Seq<char>>::empty());
        nova
    }

    /// The phase the dialogue is in.
    pub fn fase_atual(&self) -> (fase: Fase)
        ensures
            fase == self.fase(),
    {
        self.fase
    }
}

/// The roster `elenco` after each of `lidos` was pushed, in order.
pub open spec fn carregado(elenco: Seq<usize>, lidos: Seq<usize>) -> Seq<usize>
    decreases lidos.len(),
{
    if lidos.len() == 0 {
        elenco
    } else {
        apos_push(carregado(elenco, lidos.drop_last()), lidos.last())
    }
}

/// The roster `elenco` after the request `leitura` was carried out.
pub open spec fn apos_leitura(elenco: Seq<usize>, leitura: Leitura) -> Seq<usize> {
    match leitura {
        Leitura::TrocaJogador(antigo, novo) => apos_troca(elenco, antigo, novo),
        Leitura::AdicionaJogador(novo) => apos_push(elenco, novo),
        Leitura::RemoveJogador(antigo) => elenco.remove_value(antigo),
        _ => elenco,
    }
}

/// A dialogue and a roster after one line, and what is to be done next.
pub struct Passo {
    pub fase: Fase,
    pub linhas: Seq<Seq<char>>,
    pub elenco: Seq<usize>,
    pub acao: Acao,
}

/// One step of the dialogue: what the line `linha` does to a dialogue in
/// phase `fase` that keeps `linhas`, and to a roster that holds `elenco`.
///
/// While the squad is taken in, a line that is not blank is kept. A blank
/// line, or the line that fills the squad, ends this phase: the lines kept
/// are read and their ratings pushed, and the roster is to be shown; if
/// they cannot be read the dialogue ends with the error. A line is blank
/// when nothing is left of it without the white space around it.
///
/// Afterwards every line is a request. `q` ends the dialogue; any other
/// request is carried out and the roster is to be shown again.
pub open spec fn passo(
    fase: Fase,
    linhas: Seq<Seq<char>>,
    elenco: Seq<usize>,
    linha: Seq<char>,
) -> Passo {
    match fase {
        Fase::Carga => {
            let em_branco = aparada(linha).len() == 0;
            let lidas = if em_branco {
                linhas
            } else {
                linhas.push(linha)
            };
            if !em_branco && lidas.len() < CAPACIDADE {
                Passo { fase: Fase::Carga, linhas: lidas, elenco: elenco, acao: Acao::LeJogador }
            } else {
                match elenco_de(lidas) {
                    Err(erro) => Passo {
                        fase: Fase::Fim,
                        linhas: Seq::empty(),
                        elenco: elenco,
                        acao: Acao::Aborta(erro),
                    },
                    Ok(lidos) => Passo {
                        fase: Fase::Comandos,
                        linhas: Seq::empty(),
                        elenco: carregado(elenco, lidos),
                        acao: Acao::Mostra,
                    },
                }
            }
        },
        Fase::Comandos => {
            match leitura_de(linha) {
                Leitura::Quit => Passo {
                    fase: Fase::Fim,
                    linhas: linhas,
                    elenco: elenco,
                    acao: Acao::Encerra,
                },
                leitura => Passo {
                    fase: Fase::Comandos,
                    linhas: linhas,
                    elenco: apos_leitura(elenco, leitura),
                    acao: Acao::Mostra,
                },
            }
        },
        Fase::Fim => Passo { fase: Fase::Fim, linhas: linhas, elenco: elenco, acao: Acao::Encerra },
    }
}

/// Pushes each of `lidos` onto the roster, in order.
pub fn carrega(jogadores: &mut Jogadores, lidos: &Vec<usize>)
    requires
        old(jogadores).wf(),
    ensures
        final(jogadores).wf(),
        final(jogadores)@ == carregado(old(jogadores)@, lidos@),
{
    let mut i: usize = 0;
    while i < lidos.len()
        invariant
            i <= lidos@.len(),
            jogadores.wf(),
            jogadores@ == carregado(old(jogadores)@, lidos@.take(i as int)),
        decreases lidos@.len() - i,
    {
        proof {
            assert(lidos@.take(i + 1).drop_last() =~= lidos@.take(i as int));
        }
        jogadores.push(lidos[i]);
        i += 1;
    }
    proof {
        assert(lidos@.take(i as int) =~= lidos@);
    }
}

/// Carries out `leitura` on the roster and says whether the dialogue goes
/// on: it does unless the request is to leave.
pub fn executa(jogadores: &mut Jogadores, leitura: Leitura) -> (segue: bool)
    requires
        old(jogadores).wf(),
    ensures
        final(jogadores).wf(),
        final(jogadores)@ == apos_leitura(old(jogadores)@, leitura),
        segue == (leitura != Leitura::Quit),
{
    match leitura {
        Leitura::TrocaJogador(antigo, novo) => {
            jogadores.troca(antigo, novo);
            true
        },
        Leitura::AdicionaJogador(novo) => {
            jogadores.push(novo);
            true
        },
        Leitura::RemoveJogador(antigo) => {
            jogadores.remove(antigo);
            true
        },
        Leitura::Quit => false,
        Leitura::Nenhuma => true,
    }
}

/// Takes `linha` into the dialogue: one step, as `passo` describes it. The
/// answer says what is to be done before the next line is handed in.
pub fn run(sessao: &mut Sessao, jogadores: &mut Jogadores, linha: &str) -> (acao: Acao)
    requires
        old(sessao).wf(),
        old(jogadores).wf(),
    ensures
        final(sessao).wf(),
        final(jogadores).wf(),
        ({
            let p = passo(old(sessao).fase(), old(sessao).linhas(), old(jogadores)@, linha@);
            &&& final(sessao).fase() == p.fase
            &&& final(sessao).linhas() == p.linhas
            &&& final(jogadores)@ == p.elenco
            &&& acao == p.acao
        }),
{
    match sessao.fase {
        Fase::Carga => {
            let em_branco = apara(&letras(linha)).len() == 0;
            if !em_branco {
                let ghost antes = sessao.linhas@;
                sessao.linhas.push(linha.to_owned());
                proof {
                    assert(linhas_de(sessao.linhas@) =~= linhas_de(antes).push(linha@));
                }
                if sessao.linhas.len() < CAPACIDADE {
                    return Acao::LeJogador;
                }
            }
            let lidos = tenta_parse_jogadores(sessao.linhas.as_slice());
            sessao.linhas = Vec::new();
            proof {
                assert(linhas_de(sessao.linhas@) =~= Seq::<Seq<char>>::empty());
            }
            match lidos {
                Err(erro) => {
                    sessao.fase = Fase::Fim;
                    Acao::Aborta(erro)
                },
                Ok(lidos) => {
                    carrega(jogadores, &lidos);
                    sessao.fase = Fase::Comandos;
                    Acao::Mostra
                },
            }
        },
        Fase::Comandos => {
            if executa(jogadores, interpreta(linha)) {
                Acao::Mostra
            } else {
                sessao.fase = Fase::Fim;
                Acao::Encerra
            }
        },
        Fase::Fim => Acao::Encerra,
    }
}

/// Pushing ratings, one after the other, onto a roster that has room for
/// all of them: the roster stays in decreasing order, grows by one with each
/// of them, and its sum is what it was plus the ratings pushed. Since every
/// run of pushes starts with a shorter run, this holds after each push.
pub proof fn lemma_carregado(elenco: Seq<usize>, lidos: Seq<usize>)
    requires
        decrescente(elenco),
        elenco.len() + lidos.len() <= CAPACIDADE,
    ensures
        decrescente(carregado(elenco, lidos)),
        carregado(elenco, lidos).len() == elenco.len() + lidos.len(),
        soma_de(carregado(elenco, lidos)) == soma_de(elenco) + soma_de(lidos),
        carregado(elenco, lidos).to_multiset() == elenco.to_multiset().add(lidos.to_multiset()),
    decreases lidos.len(),
{
    if lidos.len() == 0 {
        assert(lidos.to_multiset() =~= vstd::multiset::Multiset::<usize>::empty()) by {
            lidos.to_multiset_ensures();
        }
        assert(elenco.to_multiset().add(lidos.to_multiset()) =~= elenco.to_multiset());
    } else {
        let antes = carregado(elenco, lidos.drop_last());
        lemma_carregado(elenco, lidos.drop_last());
        lemma_com_inserido(antes, lidos.last());
        assert(lidos.drop_last().push(lidos.last()) =~= lidos);
        vstd::seq_lib::to_multiset_build(lidos.drop_last(), lidos.last());
        assert(antes.to_multiset().insert(lidos.last()) =~= elenco.to_multiset().add(
            lidos.to_multiset(),
        ));
    }
}

/// Once a prefix of the lines cannot be read, the error is that of the
/// whole.
pub proof fn lemma_erro_fica(linhas: Seq<Seq<char>>, k: int)
    requires
        0 <= k <= linhas.len(),
        elenco_de(linhas.take(k)) is Err,
    ensures
        elenco_de(linhas) == elenco_de(linhas.take(k)),
    decreases linhas.len() - k,
{
    if k == linhas.len() {
        assert(linhas.take(k) =~= linhas);
    } else {
        assert(linhas.drop_last().take(k) =~= linhas.take(k));
        lemma_erro_fica(linhas.drop_last(), k);
    }
}

} // verus!
