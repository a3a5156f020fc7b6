use elenco::fracao::Fracao;
use elenco::jogadores::Jogadores;
use elenco::leitura::Leitura;
use elenco::{carrega, executa, run, Acao, ErroLeitura, Fase, Sessao};

#[test]
fn carrega_pushes_in_order_and_stops_at_capacity() {
    let mut jogadores = Jogadores::new();
    carrega(&mut jogadores, &vec![89, 90, 87, 84, 84, 84]);
    assert_eq!(jogadores.get_classificacoes(), [90, 89, 87, 84, 84, 84]);
    carrega(&mut jogadores, &vec![1, 2, 3, 4, 5, 6, 7, 8]);
    assert_eq!(jogadores.get_classificacoes(), [90, 89, 87, 84, 84, 84, 5, 4, 3, 2, 1]);
    assert_eq!(jogadores.total(), 533);
}

#[test]
fn executa_carries_out_each_request() {
    let mut jogadores = Jogadores::new();
    assert!(executa(&mut jogadores, Leitura::AdicionaJogador(90)));
    assert!(executa(&mut jogadores, Leitura::AdicionaJogador(80)));
    assert_eq!(jogadores.get_classificacoes(), [90, 80]);
    assert!(executa(&mut jogadores, Leitura::TrocaJogador(80, 95)));
    assert_eq!(jogadores.get_classificacoes(), [95, 90]);
    assert!(executa(&mut jogadores, Leitura::RemoveJogador(90)));
    assert_eq!(jogadores.get_classificacoes(), [95]);
    assert!(executa(&mut jogadores, Leitura::Nenhuma));
    assert_eq!(jogadores.get_classificacoes(), [95]);
    assert!(!executa(&mut jogadores, Leitura::Quit));
    assert_eq!(jogadores.get_classificacoes(), [95]);
}

#[test]
fn run_loads_a_squad_until_a_blank_line() {
    let mut sessao = Sessao::new();
    let mut jogadores = Jogadores::new();
    assert_eq!(sessao.fase_atual(), Fase::Carga);
    assert_eq!(run(&mut sessao, &mut jogadores, "90\n"), Acao::LeJogador);
    assert_eq!(run(&mut sessao, &mut jogadores, "89 2\n"), Acao::LeJogador);
    assert_eq!(run(&mut sessao, &mut jogadores, "88\n"), Acao::LeJogador);
    assert_eq!(jogadores.get_classificacoes(), []);
    assert_eq!(run(&mut sessao, &mut jogadores, "\n"), Acao::Mostra);
    assert_eq!(sessao.fase_atual(), Fase::Comandos);
    assert_eq!(jogadores.get_classificacoes(), [90, 89, 89, 88]);
    assert_eq!(jogadores.total(), 356);
    assert_eq!(jogadores.media_inicial(), Some(Fracao { numerador: 356, denominador: 4 }));
    assert_eq!(jogadores.excesso(), Some(Fracao { numerador: 4, denominador: 4 }));
    assert_eq!(jogadores.media_real(), Some(Fracao { numerador: 1428, denominador: 16 }));
}

#[test]
fn run_carries_out_requests_until_quit() {
    let mut sessao = Sessao::new();
    let mut jogadores = Jogadores::new();
    for linha in ["90\n", "89 2\n", "88\n"] {
        assert_eq!(run(&mut sessao, &mut jogadores, linha), Acao::LeJogador);
    }
    assert_eq!(run(&mut sessao, &mut jogadores, "   \n"), Acao::Mostra);
    assert_eq!(run(&mut sessao, &mut jogadores, "t 89 87\n"), Acao::Mostra);
    assert_eq!(run(&mut sessao, &mut jogadores, "t 80 90\n"), Acao::Mostra);
    assert_eq!(jogadores.get_classificacoes(), [90, 89, 88, 87]);
    assert_eq!(run(&mut sessao, &mut jogadores, "r 88\n"), Acao::Mostra);
    assert_eq!(run(&mut sessao, &mut jogadores, "r 70\n"), Acao::Mostra);
    assert_eq!(jogadores.get_classificacoes(), [90, 89, 87]);
    assert_eq!(run(&mut sessao, &mut jogadores, "a 99\n"), Acao::Mostra);
    assert_eq!(run(&mut sessao, &mut jogadores, "what?\n"), Acao::Mostra);
    assert_eq!(run(&mut sessao, &mut jogadores, "\n"), Acao::Mostra);
    assert_eq!(run(&mut sessao, &mut jogadores, ""), Acao::Mostra);
    assert_eq!(jogadores.get_classificacoes(), [99, 90, 89, 87]);
    assert_eq!(sessao.fase_atual(), Fase::Comandos);
    assert_eq!(run(&mut sessao, &mut jogadores, "q\n"), Acao::Encerra);
    assert_eq!(sessao.fase_atual(), Fase::Fim);
    assert_eq!(run(&mut sessao, &mut jogadores, "a 1\n"), Acao::Encerra);
    assert_eq!(jogadores.get_classificacoes(), [99, 90, 89, 87]);
}

#[test]
fn run_stops_loading_at_the_eleventh_line() {
    let mut sessao = Sessao::new();
    let mut jogadores = Jogadores::new();
    for rating in 70..80 {
        assert_eq!(run(&mut sessao, &mut jogadores, &format!("{}\n", rating)), Acao::LeJogador);
    }
    assert_eq!(run(&mut sessao, &mut jogadores, "80\n"), Acao::Mostra);
    assert_eq!(sessao.fase_atual(), Fase::Comandos);
    assert_eq!(jogadores.get_classificacoes(), [80, 79, 78, 77, 76, 75, 74, 73, 72, 71, 70]);
    assert_eq!(run(&mut sessao, &mut jogadores, "99\n"), Acao::Mostra);
    assert_eq!(jogadores.get_classificacoes(), [80, 79, 78, 77, 76, 75, 74, 73, 72, 71, 70]);
    assert_eq!(run(&mut sessao, &mut jogadores, "a 99\n"), Acao::Mostra);
    assert_eq!(jogadores.get_classificacoes(), [80, 79, 78, 77, 76, 75, 74, 73, 72, 71, 70]);
}

#[test]
fn run_drops_the_players_beyond_the_eleventh() {
    let mut sessao = Sessao::new();
    let mut jogadores = Jogadores::new();
    assert_eq!(run(&mut sessao, &mut jogadores, "84 7\n"), Acao::LeJogador);
    assert_eq!(run(&mut sessao, &mut jogadores, "90 7\n"), Acao::LeJogador);
    assert_eq!(run(&mut sessao, &mut jogadores, ""), Acao::Mostra);
    assert_eq!(jogadores.get_classificacoes(), [90, 90, 90, 90, 84, 84, 84, 84, 84, 84, 84]);
}

#[test]
fn run_with_no_squad_shows_an_empty_roster() {
    let mut sessao = Sessao::new();
    let mut jogadores = Jogadores::new();
    assert_eq!(run(&mut sessao, &mut jogadores, "\n"), Acao::Mostra);
    assert_eq!(sessao.fase_atual(), Fase::Comandos);
    assert_eq!(jogadores.get_classificacoes(), []);
    assert_eq!(jogadores.media_real(), None);
    assert_eq!(run(&mut sessao, &mut jogadores, "a 50\n"), Acao::Mostra);
    assert_eq!(jogadores.media_real(), Some(Fracao { numerador: 50, denominador: 1 }));
}

#[test]
fn run_gives_up_on_a_squad_it_cannot_read() {
    let mut sessao = Sessao::new();
    let mut jogadores = Jogadores::new();
    assert_eq!(run(&mut sessao, &mut jogadores, "90\n"), Acao::LeJogador);
    assert_eq!(run(&mut sessao, &mut jogadores, "oitenta\n"), Acao::LeJogador);
    assert_eq!(run(&mut sessao, &mut jogadores, "84 x\n"), Acao::LeJogador);
    assert_eq!(
        run(&mut sessao, &mut jogadores, "\n"),
        Acao::Aborta(ErroLeitura::PrimeiroArgumento)
    );
    assert_eq!(sessao.fase_atual(), Fase::Fim);
    assert_eq!(jogadores.get_classificacoes(), []);
    assert_eq!(run(&mut sessao, &mut jogadores, "90\n"), Acao::Encerra);

    let mut sessao = Sessao::new();
    assert_eq!(run(&mut sessao, &mut jogadores, "84 muitos\n"), Acao::LeJogador);
    assert_eq!(
        run(&mut sessao, &mut jogadores, "\n"),
        Acao::Aborta(ErroLeitura::SegundoArgumento)
    );
}
