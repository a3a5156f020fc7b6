//! What a line of text asks of the roster.

use vstd::prelude::*;
use crate::texto::{apara, aparada, campos_de, letras, numero, numero_de, separa, textos};

verus! {

/// A request read from one line.
#[derive(Clone, Copy, PartialEq, Eq, Debug, Structural)]
pub enum Leitura {
    /// `r <rating>`: take one `rating` out.
    RemoveJogador(usize),
    /// `a <rating>`: put `rating` in.
    AdicionaJogador(usize),
    /// `t <antigo> <novo>`: replace one `antigo` by `novo`.
    TrocaJogador(usize, usize),
    /// `q`: leave.
    Quit,
    /// Anything else: do nothing.
    Nenhuma,
}

/// The field `campo` is the single character `letra`.
pub open spec fn so_a_letra(campo: Seq<char>, letra: char) -> bool {
    campo.len() == 1 && campo[0] == letra
}

/// The request that the fields of a line make. The first field names it;
/// `a` and `r` take the second field as a number, `t` the second and the
/// third; further fields are not looked at. A line that names no request, or
/// lacks a number that its request needs, asks for nothing.
pub open spec fn comando_de(campos: Seq<Seq<char>>) -> Leitura
    recommends
        campos.len() >= 1,
{
    let nome = campos[0];
    if so_a_letra(nome, 'q') {
        Leitura::Quit
    } else if so_a_letra(nome, 'a') || so_a_letra(nome, 'r') || so_a_letra(nome, 't') {
        if campos.len() < 2 {
            Leitura::Nenhuma
        } else {
            match numero_de(campos[1]) {
                None => Leitura::Nenhuma,
                Some(rating) => {
                    if so_a_letra(nome, 'a') {
                        Leitura::AdicionaJogador(rating)
                    } else if so_a_letra(nome, 'r') {
                        Leitura::RemoveJogador(rating)
                    } else if campos.len() < 3 {
                        Leitura::Nenhuma
                    } else {
                        match numero_de(campos[2]) {
                            None => Leitura::Nenhuma,
                            Some(novo) => Leitura::TrocaJogador(rating, novo),
                        }
                    }
                },
            }
        }
    } else {
        Leitura::Nenhuma
    }
}

/// The request that a line makes: that of its fields, once the white space
/// around the line is gone.
pub open spec fn leitura_de(linha: Seq<char>) -> Leitura {
    comando_de(campos_de(aparada(linha)))
}

fn eh_a_letra(campo: &Vec<char>, letra: char) -> (r: bool)
    ensures
        r == so_a_letra(campo@, letra),
{
    campo.len() == 1 && campo[0] == letra
}

/// The request that the fields of a line make.
pub fn comando(campos: &Vec<Vec<char>>) -> (leitura: Leitura)
    requires
        campos@.len() >= 1,
    ensures
        leitura == comando_de(textos(campos@)),
{
    let nome = &campos[0];
    if eh_a_letra(nome, 'q') {
        return Leitura::Quit;
    }
    let adiciona = eh_a_letra(nome, 'a');
    let remove = eh_a_letra(nome, 'r');
    if !(adiciona || remove || eh_a_letra(nome, 't')) || campos.len() < 2 {
        return Leitura::Nenhuma;
    }
    match numero(&campos[1]) {
        None => Leitura::Nenhuma,
        Some(rating) => {
            if adiciona {
                Leitura::AdicionaJogador(rating)
            } else if remove {
                Leitura::RemoveJogador(rating)
            } else if campos.len() < 3 {
                Leitura::Nenhuma
            } else {
                match numero(&campos[2]) {
                    None => Leitura::Nenhuma,
                    Some(novo) => Leitura::TrocaJogador(rating, novo),
                }
            }
        },
    }
}

/// The request that `linha` makes.
pub fn interpreta(linha: &str) -> (leitura: Leitura)
    ensures
        leitura == leitura_de(linha@),
{
    let campos = separa(&apara(&letras(linha)));
    comando(&campos)
}

} // verus!
